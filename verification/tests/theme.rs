use kou::theme::{key, rgb, theme_by_name, themes};

#[test]
fn theme_lookup_is_separator_insensitive() {
    assert_eq!(theme_by_name("Solarized Dark").name, "Solarized Dark");
    assert_eq!(theme_by_name("solarized-dark").name, "Solarized Dark");
    assert_eq!(theme_by_name("SOLARIZED_DARK").name, "Solarized Dark");
    assert_eq!(theme_by_name("one-half-dark").name, "One Half Dark");
    assert_eq!(theme_by_name("onehalfdark").name, "One Half Dark");
}

#[test]
fn unknown_theme_falls_back_to_campbell() {
    assert_eq!(theme_by_name("nope-not-a-theme").name, "Campbell");
    assert_eq!(theme_by_name("").name, "Campbell");
}

#[test]
fn default_and_ibm_aliases_resolve() {
    assert_eq!(theme_by_name("default").name, "xterm");
    assert_eq!(theme_by_name("ibm-5153").name, "IBM 5153");
    assert_eq!(theme_by_name("ibm5153").name, "IBM 5153");
}

#[test]
fn themes_have_distinct_backgrounds() {
    let mut bgs: Vec<[u8; 3]> = themes().iter().map(|t| t.background).collect();
    let total = bgs.len();
    bgs.sort();
    bgs.dedup();
    assert!(bgs.len() > total / 2, "themes collapsed: {bgs:?}");
}

#[test]
fn theme_palette_values() {
    let c = theme_by_name("campbell");
    assert_eq!(c.background, [0x0c, 0x0c, 0x0c]);
    assert_eq!(c.ansi[1], [0xc5, 0x0f, 0x1f]);
    let x = theme_by_name("DEFAULT");
    assert_eq!(x.background, [0x18, 0x18, 0x1c]);
    assert_eq!(themes().len(), 15);
    assert_eq!(themes()[0].name, "Campbell");
}

#[test]
fn keys_keep_letters_and_digits_lower_cased() {
    assert_eq!(key("Dark+"), "dark");
    assert_eq!(key("IBM 5153"), "ibm5153");
    assert_eq!(key("Ünï-cödé"), "ncd");
    assert_eq!(theme_by_name("dark+").name, "Dark+");
}

#[test]
fn rgb_splits_bytes() {
    assert_eq!(rgb(0x123456), [0x12, 0x34, 0x56]);
}
