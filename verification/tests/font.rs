use kou::font::{FontFamily, FontSet};

#[test]
fn cache_name_is_unique_per_family() {
    let names: Vec<&str> = [
        FontFamily::FiraCode,
        FontFamily::JetBrainsMono,
        FontFamily::SourceHanSansSC,
        FontFamily::SarasaMonoSC,
        FontFamily::SmileySans,
    ]
    .iter()
    .map(|f| f.cache_name())
    .collect();
    let dedup: std::collections::HashSet<&str> = names.iter().copied().collect();
    assert_eq!(names.len(), dedup.len(), "duplicate cache names: {names:?}");
}

#[test]
fn mirror_substitution_replaces_host() {
    let url = FontFamily::FiraCode.source_url(Some("https://mirror.example.com"));
    assert!(url.starts_with("https://mirror.example.com/"), "mirror not applied: {url}");
}

#[test]
fn mirror_slashes_and_absence() {
    assert_eq!(
        FontFamily::SmileySans.source_url(Some("https://m.example//")),
        "https://m.example/atelier-anchor/smiley-sans@2.0.1/fonts/SmileySans-Regular.ttf"
    );
    let raw = "https://cdn.jsdelivr.net/gh/tonsky/FiraCode@5.2/distr/ttf/FiraCode-Regular.ttf";
    assert_eq!(FontFamily::FiraCode.source_url(None), raw);
    assert_eq!(FontFamily::FiraCode.source_url(Some("///")), raw);
}

#[test]
fn family_selection_from_values() {
    assert_eq!(FontFamily::primary_from_env(Some(" JetBrains-Mono ")), FontFamily::JetBrainsMono);
    assert_eq!(FontFamily::primary_from_env(Some("jetbrains")), FontFamily::JetBrainsMono);
    assert_eq!(FontFamily::primary_from_env(Some("fira-code")), FontFamily::FiraCode);
    assert_eq!(FontFamily::primary_from_env(None), FontFamily::FiraCode);
    assert_eq!(FontFamily::cjk_from_env(None), Some(FontFamily::SarasaMonoSC));
    assert_eq!(FontFamily::cjk_from_env(Some("sourcehansans")), Some(FontFamily::SourceHanSansSC));
    assert_eq!(FontFamily::cjk_from_env(Some("SMILEY")), Some(FontFamily::SmileySans));
    assert_eq!(FontFamily::cjk_from_env(Some("none")), None);
    assert_eq!(FontFamily::cjk_from_env(Some("off")), None);
}

#[test]
fn font_set_from_values() {
    let s = FontSet::from_env(Some("jetbrains-mono"), Some("none"));
    assert_eq!(s.primary, FontFamily::JetBrainsMono);
    assert!(s.fallbacks.is_empty());
    let d = FontSet::from_env(None, None);
    assert_eq!(d.all(), vec![FontFamily::FiraCode, FontFamily::SarasaMonoSC]);
}

#[test]
fn labels_and_path_overrides() {
    assert_eq!(FontFamily::SourceHanSansSC.label(), "source-han-sans-sc");
    assert_eq!(FontFamily::FiraCode.path_env(), Some("KOU_FONT_PATH"));
    assert_eq!(FontFamily::SmileySans.path_env(), Some("KOU_FONT_CJK_PATH"));
}
