//! Terminal graphics protocols.
//!
//! On top of the text screen, kou can describe an image to a capable terminal
//! using one of the inband graphics protocols, so a compatible emulator
//! (kitty, wezterm, iTerm2, Ghostty, …) renders the actual pixels in place of
//! an `[image]` placeholder.
//!
//! - **Kitty** (`kitty2`) — the APC `\e_G…` graphics protocol. Fully encoded.
//! - **iTerm2** — the OSC 1337 inline-image protocol (`File=inline=1;…`).
//!   Fully encoded.
//! - **Sixel** — modelled but not encoded: a real sixel stream needs a
//!   rasterizer; [`GraphicsProtocol::supported`] reports this.
//!
//! The receiving half scans a PTY byte stream for kitty APC sequences,
//! reassembles chunked transfers, decodes the base64 payload into an
//! [`InlineImageStore`] and records a [`Placement`] at the cursor.

use std::collections::HashMap;
use vstd::prelude::*;
use vstd::utf8::encode_utf8;
use crate::text::{
    normalized, normalize, ascii_lower, trim, index_of, split_on, parse_u32_spec, str_chars,
    trim_chars, to_ascii_lower, chars_eq, split_chars, find_char, parse_u32, push_str, push_chars,
    push_decimal, decimal,
};

verus! {

broadcast use vstd::std_specs::hash::group_hash_axioms;

// ── base64 ──────────────────────────────────────────────────────────────

/// The standard (RFC 4648 alphabet, padded) base64 encoding of `data`.
pub uninterp spec fn base64_of(data: Seq<u8>) -> Seq<char>;

/// What the standard padded base64 engine decodes `text` to, or `None`
/// when it rejects the input.
pub uninterp spec fn base64_decoded(text: Seq<u8>) -> Option<Seq<u8>>;

/// A character of the standard base64 alphabet, or the `=` pad.
pub open spec fn is_b64_char(c: char) -> bool {
    ('A' <= c && c <= 'Z') || ('a' <= c && c <= 'z') || ('0' <= c && c <= '9') || c == '+' || c
        == '/' || c == '='
}

/// The characters of `text` as bytes (for ASCII text, its UTF-8 bytes).
pub open spec fn char_bytes(text: Seq<char>) -> Seq<u8> {
    text.map_values(|c: char| c as u8)
}

/// Wraps `base64::Engine::encode` with the `STANDARD` engine. The result is
/// the named encoding. The crate's source also shows that it uses only the
/// standard alphabet and `=`, that it is padded to four characters for each
/// started group of three bytes (`encoded_len`), and that the same engine
/// decodes it back to `data`.
#[verifier::external_body]
fn b64_encode(data: &[u8]) -> (s: String)
    ensures
        s@ == base64_of(data@),
        forall|i: int| 0 <= i < s@.len() ==> is_b64_char(#[trigger] s@[i]),
        s@.len() == 4 * ((data@.len() + 2) / 3),
        base64_decoded(char_bytes(s@)) == Some(data@),
{
    base64::Engine::encode(&base64::engine::general_purpose::STANDARD, data)
}

/// Wraps `base64::Engine::decode` with the `STANDARD` engine; `None` when
/// the engine reports a decode error.
#[verifier::external_body]
fn b64_decode(text: &[u8]) -> (r: Option<Vec<u8>>)
    ensures
        match r {
            Some(v) => base64_decoded(text@) == Some(v@),
            None => base64_decoded(text@) is None,
        },
{
    match base64::Engine::decode(&base64::engine::general_purpose::STANDARD, text) {
        Ok(v) => Some(v),
        Err(_) => None,
    }
}

// ── protocols and encoding ──────────────────────────────────────────────

/// A terminal graphics protocol kou can address.
#[derive(Debug, Clone, Copy, PartialEq, Eq, Structural)]
pub enum GraphicsProtocol {
    /// Kitty graphics protocol (`kitty2`), APC `\e_G`.
    Kitty,
    /// iTerm2 inline-image protocol, OSC 1337.
    Iterm,
    /// Sixel (DCS). Not encoded — see [`GraphicsProtocol::supported`].
    Sixel,
    /// No inband protocol; the consumer renders a PNG out of band.
    Off,
}

/// The protocol that a `KOU_GRAPHICS` value selects.
pub open spec fn protocol_named(value: Option<Seq<char>>) -> GraphicsProtocol {
    match value {
        Some(v) => {
            let k = normalized(v);
            if k == "kitty"@ || k == "kitty2"@ {
                GraphicsProtocol::Kitty
            } else if k == "iterm"@ || k == "iterm2"@ {
                GraphicsProtocol::Iterm
            } else if k == "sixel"@ {
                GraphicsProtocol::Sixel
            } else {
                GraphicsProtocol::Off
            }
        },
        None => GraphicsProtocol::Off,
    }
}

impl GraphicsProtocol {
    /// The protocol selected by the value of `KOU_GRAPHICS` (`None` when the
    /// variable is unset): `kitty`/`kitty2`, `iterm`/`iterm2` or `sixel`,
    /// case-insensitively and ignoring surrounding white space; anything
    /// else is `Off`.
    pub fn from_env(value: Option<&str>) -> (p: Self)
        ensures
            p == protocol_named(
                match value {
                    Some(v) => Some(v@),
                    None => None,
                },
            ),
    {
        match value {
            Some(v) => {
                let k = normalize(v);
                if chars_eq(k.as_slice(), "kitty") || chars_eq(k.as_slice(), "kitty2") {
                    GraphicsProtocol::Kitty
                } else if chars_eq(k.as_slice(), "iterm") || chars_eq(k.as_slice(), "iterm2") {
                    GraphicsProtocol::Iterm
                } else if chars_eq(k.as_slice(), "sixel") {
                    GraphicsProtocol::Sixel
                } else {
                    GraphicsProtocol::Off
                }
            },
            None => GraphicsProtocol::Off,
        }
    }

    /// `true` if [`encode`] produces a real inband image for this protocol.
    pub fn supported(self) -> (r: bool)
        ensures
            r == (self == GraphicsProtocol::Kitty || self == GraphicsProtocol::Iterm),
    {
        match self {
            GraphicsProtocol::Kitty | GraphicsProtocol::Iterm => true,
            _ => false,
        }
    }

    /// Short lower-case name of the protocol.
    pub fn label(self) -> (s: &'static str)
        ensures
            s@ == match self {
                GraphicsProtocol::Kitty => "kitty"@,
                GraphicsProtocol::Iterm => "iterm"@,
                GraphicsProtocol::Sixel => "sixel"@,
                GraphicsProtocol::Off => "off"@,
            },
    {
        match self {
            GraphicsProtocol::Kitty => "kitty",
            GraphicsProtocol::Iterm => "iterm",
            GraphicsProtocol::Sixel => "sixel",
            GraphicsProtocol::Off => "off",
        }
    }
}

/// An image to place at the cursor position.
#[derive(Debug, Clone)]
pub struct GraphicsRequest<'a> {
    /// Raw image bytes (PNG for kitty/iterm).
    pub bytes: &'a [u8],
    /// Image width in pixels (informational; some protocols want it).
    pub pixel_w: u32,
    pub pixel_h: u32,
    /// Number of terminal columns the image should span.
    pub cells_w: u32,
    /// Number of terminal rows the image should span.
    pub cells_h: u32,
}

/// Number of base64 characters carried by one kitty frame.
pub const KITTY_CHUNK: usize = 4096;

/// The control data of a kitty frame starting at `start` of a payload of
/// `len` characters.
pub open spec fn kitty_control(req: GraphicsRequest, start: nat, len: nat) -> Seq<char> {
    let more = start + KITTY_CHUNK < len;
    if start == 0 {
        "a=t,t=d,f=100,s="@ + decimal(req.pixel_w as nat) + ",v="@ + decimal(req.pixel_h as nat)
            + ",c="@ + decimal(req.cells_w as nat) + ",r="@ + decimal(req.cells_h as nat) + (if more {
            ",m=1"@
        } else {
            Seq::empty()
        })
    } else if more {
        "m=1"@
    } else {
        "m=0"@
    }
}

/// End of the chunk that starts at `start`.
pub open spec fn chunk_end(start: nat, len: nat) -> nat {
    if start + KITTY_CHUNK < len {
        (start + KITTY_CHUNK) as nat
    } else {
        len
    }
}

/// The kitty frame carrying the chunk of `b64` that starts at `start`.
pub open spec fn kitty_frame(req: GraphicsRequest, b64: Seq<char>, start: nat) -> Seq<char> {
    "\x1b_G"@ + kitty_control(req, start, b64.len()) + ";"@ + b64.subrange(
        start as int,
        chunk_end(start, b64.len()) as int,
    ) + "\x1b\\"@
}

/// The kitty frames carrying `b64[start..]`, each APC `ESC _ G` control `;`
/// chunk `ESC \`, chunks of [`KITTY_CHUNK`] characters.
pub open spec fn kitty_frames(req: GraphicsRequest, b64: Seq<char>, start: nat) -> Seq<char>
    decreases b64.len() - start,
{
    if start >= b64.len() {
        Seq::empty()
    } else {
        kitty_frame(req, b64, start) + kitty_frames(req, b64, chunk_end(start, b64.len()))
    }
}

/// Each run of kitty frames opens an APC (`ESC _ G`) and closes one
/// (`ESC \`).
pub proof fn lemma_frames_bracketed(req: GraphicsRequest, b64: Seq<char>, start: nat)
    requires
        start < b64.len(),
    ensures
        kitty_frames(req, b64, start).len() >= 5,
        kitty_frames(req, b64, start).take(3) == "\x1b_G"@,
        kitty_frames(req, b64, start).skip(kitty_frames(req, b64, start).len() - 2) == "\x1b\\"@,
    decreases b64.len() - start,
{
    reveal_strlit("\x1b_G");
    reveal_strlit("\x1b\\");
    reveal_strlit(";");
    let f = kitty_frame(req, b64, start);
    let end = chunk_end(start, b64.len());
    let rest = kitty_frames(req, b64, end);
    assert(f.take(3) =~= "\x1b_G"@);
    assert(f.skip(f.len() - 2) =~= "\x1b\\"@);
    if end < b64.len() {
        lemma_frames_bracketed(req, b64, end);
        assert((f + rest).take(3) =~= f.take(3));
        assert((f + rest).skip((f + rest).len() - 2) =~= rest.skip(rest.len() - 2));
    } else {
        assert(rest =~= Seq::<char>::empty());
        assert(f + rest =~= f);
    }
}

/// The kitty graphics encoding of `req`.
pub open spec fn kitty_encoding(req: GraphicsRequest) -> Seq<char> {
    kitty_frames(req, base64_of(req.bytes@), 0)
}

/// The bytes of the file name iTerm2 is given: `kou-image`.
pub open spec fn iterm_name() -> Seq<u8> {
    seq![107u8, 111u8, 117u8, 45u8, 105u8, 109u8, 97u8, 103u8, 101u8]
}

/// The iTerm2 OSC 1337 encoding of `req`.
pub open spec fn iterm_encoding(req: GraphicsRequest) -> Seq<char> {
    "\x1b]1337;"@ + iterm_arguments(req) + ":"@ + base64_of(req.bytes@) + "\x07"@
}

/// The arguments of the iTerm2 encoding of `req`, between `ESC ] 1337 ;`
/// and the `:` before the image data: inline display, the size in cells,
/// the byte count and the file name.
pub open spec fn iterm_arguments(req: GraphicsRequest) -> Seq<char> {
    "File=inline=1;width="@ + decimal(req.cells_w as nat) + "cells;height="@ + decimal(
        req.cells_h as nat,
    ) + "cells;size="@ + decimal(req.bytes@.len()) + ";name="@ + base64_of(iterm_name())
}

/// What [`encode`] returns.
pub open spec fn encoding(protocol: GraphicsProtocol, req: GraphicsRequest) -> Option<Seq<char>> {
    if req.bytes@.len() == 0 {
        None
    } else {
        match protocol {
            GraphicsProtocol::Kitty => Some(kitty_encoding(req)),
            GraphicsProtocol::Iterm => Some(iterm_encoding(req)),
            _ => None,
        }
    }
}

/// Encode `req` for `protocol` into the inband escape sequence a terminal
/// renders. Returns `None` for [`GraphicsProtocol::Off`] (caller should render
/// a PNG instead), for [`GraphicsProtocol::Sixel`] (no rasterizer), and for an
/// empty payload (nothing to draw).
pub fn encode(protocol: GraphicsProtocol, req: &GraphicsRequest<'_>) -> (r: Option<String>)
    ensures
        match r {
            Some(s) => encoding(protocol, *req) == Some(s@),
            None => encoding(protocol, *req) is None,
        },
        (protocol is Kitty && req.bytes@.len() > 0) ==> (r matches Some(s) && s@.take(3)
            == "\x1b_G"@ && s@.len() >= 5 && s@.skip(s@.len() - 2) == "\x1b\\"@),
{
    if req.bytes.len() == 0 {
        return None;
    }
    match protocol {
        GraphicsProtocol::Kitty => Some(encode_kitty(req)),
        GraphicsProtocol::Iterm => Some(encode_iterm(req)),
        _ => None,
    }
}

/// Encode the kitty graphics protocol (`kitty2`): a fire-and-forget `a=t`
/// placement whose first chunk carries `f=100,s=<w>,v=<h>,c=<cols>,r=<rows>`,
/// followed by `m=1`-continued chunks and a final `m=0` chunk.
pub fn encode_kitty(req: &GraphicsRequest<'_>) -> (s: String)
    ensures
        s@ == kitty_encoding(*req),
        req.bytes@.len() > 0 ==> {
            &&& s@.take(3) == "\x1b_G"@
            &&& s@.len() >= 5
            &&& s@.skip(s@.len() - 2) == "\x1b\\"@
        },
{
    let b64s = b64_encode(req.bytes);
    proof {
        if req.bytes@.len() > 0 {
            lemma_frames_bracketed(*req, b64s@, 0);
        }
    }
    let b64 = str_chars(b64s.as_str());
    let len = b64.len();
    let mut out = String::new();
    let mut start: usize = 0;
    while start < len
        invariant
            start <= len,
            len == b64@.len(),
            b64@ == base64_of(req.bytes@),
            out@ + kitty_frames(*req, b64@, start as nat) == kitty_frames(*req, b64@, 0),
        decreases len - start,
    {
        let end = if len - start > KITTY_CHUNK {
            start + KITTY_CHUNK
        } else {
            len
        };
        let ghost before = out@;
        push_kitty_frame(&mut out, req, &b64, start, end);
        assert(before + kitty_frames(*req, b64@, start as nat) =~= out@ + kitty_frames(
            *req,
            b64@,
            end as nat,
        ));
        start = end;
    }
    out
}

/// Appends the kitty frame for the chunk `b64[start..end]`.
fn push_kitty_frame(
    out: &mut String,
    req: &GraphicsRequest<'_>,
    b64: &Vec<char>,
    start: usize,
    end: usize,
)
    requires
        start < end <= b64@.len(),
        end == chunk_end(start as nat, b64@.len()),
    ensures
        final(out)@ == old(out)@ + kitty_frame(*req, b64@, start as nat),
{
    let more = end != b64.len();
    push_str(out, "\x1b_G");
    if start == 0 {
        push_str(out, "a=t,t=d,f=100,s=");
        push_decimal(out, req.pixel_w as u64);
        push_str(out, ",v=");
        push_decimal(out, req.pixel_h as u64);
        push_str(out, ",c=");
        push_decimal(out, req.cells_w as u64);
        push_str(out, ",r=");
        push_decimal(out, req.cells_h as u64);
        if more {
            push_str(out, ",m=1");
        }
    } else if more {
        push_str(out, "m=1");
    } else {
        push_str(out, "m=0");
    }
    push_str(out, ";");
    push_chars(out, vstd::slice::slice_subrange(b64.as_slice(), start, end));
    push_str(out, "\x1b\\");
    assert(out@ =~= old(out)@ + kitty_frame(*req, b64@, start as nat));
}

/// Encode the iTerm2 OSC 1337 inline-image protocol.
pub fn encode_iterm(req: &GraphicsRequest<'_>) -> (s: String)
    ensures
        s@ == iterm_encoding(*req),
{
    let name: [u8; 9] = [107u8, 111u8, 117u8, 45u8, 105u8, 109u8, 97u8, 103u8, 101u8];
    assert(name@ == iterm_name());
    let name_b64 = b64_encode(&name);
    let data_b64 = b64_encode(req.bytes);
    let mut out = String::new();
    push_str(&mut out, "\x1b]1337;");
    push_str(&mut out, "File=inline=1;width=");
    push_decimal(&mut out, req.cells_w as u64);
    push_str(&mut out, "cells;height=");
    push_decimal(&mut out, req.cells_h as u64);
    push_str(&mut out, "cells;size=");
    push_decimal(&mut out, req.bytes.len() as u64);
    push_str(&mut out, ";name=");
    push_str(&mut out, name_b64.as_str());
    push_str(&mut out, ":");
    push_str(&mut out, data_b64.as_str());
    push_str(&mut out, "\x07");
    assert(out@ =~= iterm_encoding(*req));
    out
}

// ── inband graphics protocol receiver ──────────────────────────────────

/// One decoded inline image (stored as raw PNG bytes).
#[derive(Debug, Clone)]
pub struct InlineImage {
    pub id: u32,
    pub data: Vec<u8>,
}

/// A placed image on the screen grid (row/col + dimensions in cells and pixels).
#[derive(Debug, Clone, Copy, PartialEq, Eq, Structural)]
pub struct Placement {
    pub image_id: u32,
    pub row: usize,
    pub col: usize,
    pub pixel_w: u32,
    pub pixel_h: u32,
    pub cells_w: u32,
    pub cells_h: u32,
}

/// Accumulated inline images and their placements.
#[derive(Debug)]
pub struct InlineImageStore {
    images: HashMap<u32, InlineImage>,
    placements: Vec<Placement>,
    /// Id given to the next image that arrives without one (iTerm2);
    /// counts down from `u32::MAX`.
    next_id: u32,
}

impl InlineImageStore {
    /// Every stored image is filed under its own id.
    #[verifier::type_invariant]
    spec fn ids_match(self) -> bool {
        forall|k: u32| #[trigger] self.images@.contains_key(k) ==> self.images@[k].id == k
    }

    /// The stored images: id to image bytes.
    pub closed spec fn image_map(&self) -> Map<u32, Seq<u8>> {
        self.images@.map_values(|img: InlineImage| img.data@)
    }

    /// The placements, oldest first.
    pub closed spec fn placement_seq(&self) -> Seq<Placement> {
        self.placements@
    }

    /// The id the next image without an id of its own gets.
    pub closed spec fn next_id(&self) -> u32 {
        self.next_id
    }

    /// The whole store as a value.
    pub open spec fn model(&self) -> ImagesView {
        ImagesView {
            images: self.image_map(),
            placements: self.placement_seq(),
            next_id: self.next_id(),
        }
    }

    /// An empty store.
    pub fn new() -> (s: Self)
        ensures
            s.image_map() == Map::<u32, Seq<u8>>::empty(),
            s.placement_seq() == Seq::<Placement>::empty(),
            s.next_id() == u32::MAX,
    {
        let s = InlineImageStore { images: HashMap::new(), placements: Vec::new(), next_id: 0xffff_ffff };
        assert(s.image_map() =~= Map::<u32, Seq<u8>>::empty());
        s
    }

    /// Store `img` under its id, replacing any image with the same id.
    pub fn insert(&mut self, img: InlineImage)
        ensures
            final(self).image_map() == old(self).image_map().insert(img.id, img.data@),
            final(self).placement_seq() == old(self).placement_seq(),
            final(self).next_id() == old(self).next_id(),
    {
        proof {
            use_type_invariant(&*self);
        }
        let id = img.id;
        let ghost data = img.data@;
        let mut images = HashMap::new();
        std::mem::swap(&mut images, &mut self.images);
        images.insert(id, img);
        self.images = images;
        assert(self.image_map() =~= old(self).image_map().insert(id, data));
    }

    /// Record a placement.
    pub fn place(&mut self, p: Placement)
        ensures
            final(self).image_map() == old(self).image_map(),
            final(self).placement_seq() == old(self).placement_seq().push(p),
            final(self).next_id() == old(self).next_id(),
    {
        proof {
            use_type_invariant(&*self);
        }
        let mut placements = Vec::new();
        std::mem::swap(&mut placements, &mut self.placements);
        placements.push(p);
        self.placements = placements;
    }

    /// All placements, oldest first.
    pub fn placements(&self) -> (r: &[Placement])
        ensures
            r@ == self.placement_seq(),
    {
        self.placements.as_slice()
    }

    /// The image stored under `id`.
    pub fn image(&self, id: u32) -> (r: Option<&InlineImage>)
        ensures
            match r {
                Some(img) => self.image_map().contains_key(id) && img.id == id && img.data@
                    == self.image_map()[id],
                None => !self.image_map().contains_key(id),
            },
    {
        proof {
            use_type_invariant(self);
        }
        self.images.get(&id)
    }

    /// Take the id for an image that arrived without one.
    fn take_id(&mut self) -> (id: u32)
        ensures
            id == old(self).next_id(),
            final(self).image_map() == old(self).image_map(),
            final(self).placement_seq() == old(self).placement_seq(),
            final(self).next_id() == next_after(old(self).next_id()),
    {
        proof {
            use_type_invariant(&*self);
        }
        let id = self.next_id;
        self.next_id = if id > 0 {
            id - 1
        } else {
            0xffff_ffff
        };
        id
    }

    /// Number of placements.
    pub fn len(&self) -> (n: usize)
        ensures
            n == self.placement_seq().len(),
    {
        self.placements.len()
    }
}

impl Default for InlineImageStore {
    fn default() -> (s: Self)
        ensures
            s.image_map() == Map::<u32, Seq<u8>>::empty(),
            s.placement_seq() == Seq::<Placement>::empty(),
            s.next_id() == u32::MAX,
    {
        InlineImageStore::new()
    }
}

impl Clone for InlineImageStore {
    /// A copy with the same images, placements and next id.
    fn clone(&self) -> (s: Self)
        ensures
            s.model() == self.model(),
    {
        proof {
            use_type_invariant(self);
        }
        let placements = self.placements.clone();
        assert(placements@ =~= self.placements@);
        InlineImageStore { images: self.images.clone(), placements, next_id: self.next_id }
    }
}

/// The contents of an [`InlineImageStore`].
pub struct ImagesView {
    pub images: Map<u32, Seq<u8>>,
    pub placements: Seq<Placement>,
    pub next_id: u32,
}

/// The id after `id` in the count-down.
pub open spec fn next_after(id: u32) -> u32 {
    if id > 0 {
        (id - 1) as u32
    } else {
        u32::MAX
    }
}

/// A chunked kitty transfer still being assembled: the base64 received so
/// far, the first dimension hints seen (`s=`, `v=`, `c=`, `r=`), and whether
/// any chunk asked for display (`a=t` / `a=T`).
#[derive(Debug, Clone)]
pub struct PendingImage {
    pub data: Vec<u8>,
    pub pixel_w: Option<u32>,
    pub pixel_h: Option<u32>,
    pub cells_w: Option<u32>,
    pub cells_h: Option<u32>,
    pub place: bool,
}

/// The model of a [`PendingImage`].
pub struct PendingView {
    pub data: Seq<u8>,
    pub pixel_w: Option<u32>,
    pub pixel_h: Option<u32>,
    pub cells_w: Option<u32>,
    pub cells_h: Option<u32>,
    pub place: bool,
}

impl View for PendingImage {
    type V = PendingView;

    open spec fn view(&self) -> PendingView {
        PendingView {
            data: self.data@,
            pixel_w: self.pixel_w,
            pixel_h: self.pixel_h,
            cells_w: self.cells_w,
            cells_h: self.cells_h,
            place: self.place,
        }
    }
}

/// Partial-state accumulator for chunked kitty APC transfers, by image id.
#[derive(Debug)]
pub struct KittyDecodeState {
    pending: HashMap<u32, PendingImage>,
}

impl KittyDecodeState {
    /// The transfers in progress, by image id.
    pub closed spec fn pending_map(&self) -> Map<u32, PendingView> {
        self.pending@.map_values(|p: PendingImage| p@)
    }

    /// No transfer in progress.
    pub fn new() -> (s: Self)
        ensures
            s.pending_map() == Map::<u32, PendingView>::empty(),
    {
        let s = KittyDecodeState { pending: HashMap::new() };
        assert(s.pending_map() =~= Map::<u32, PendingView>::empty());
        s
    }
}

impl Clone for KittyDecodeState {
    /// A copy with the same transfers in progress.
    fn clone(&self) -> (s: Self)
        ensures
            s.pending_map() == self.pending_map(),
    {
        KittyDecodeState { pending: self.pending.clone() }
    }
}

impl Default for KittyDecodeState {
    fn default() -> (s: Self)
        ensures
            s.pending_map() == Map::<u32, PendingView>::empty(),
    {
        KittyDecodeState::new()
    }
}

// ── kitty APC extraction ───────────────────────────────────────────────

/// What `String::from_utf8_lossy` makes of `bytes`.
pub uninterp spec fn utf8_lossy(bytes: Seq<u8>) -> Seq<char>;

/// Wraps `String::from_utf8_lossy`: decodes `bytes`, replacing invalid
/// sequences with U+FFFD. The result is the named decoding; its documentation
/// also states that valid UTF-8 is decoded unchanged.
#[verifier::external_body]
fn lossy_string(bytes: &[u8]) -> (s: String)
    ensures
        s@ == utf8_lossy(bytes@),
        vstd::utf8::valid_utf8(bytes@) ==> s@ == vstd::utf8::decode_utf8(bytes@),
{
    String::from_utf8_lossy(bytes).into_owned()
}

/// `ESC _ G` starts at `i`.
pub open spec fn is_apc_start(d: Seq<u8>, i: int) -> bool {
    d[i] == 0x1bu8 && d[i + 1] == 0x5fu8 && d[i + 2] == 0x47u8
}

/// The first `j >= from` where the string terminator `ESC \` starts.
pub open spec fn st_from(d: Seq<u8>, from: nat) -> Option<nat>
    decreases d.len() - from,
{
    if from + 1 >= d.len() {
        None
    } else if d[from as int] == 0x1bu8 && d[from + 1int] == 0x5cu8 {
        Some(from)
    } else {
        st_from(d, from + 1)
    }
}

pub proof fn lemma_st_from_bounds(d: Seq<u8>, from: nat)
    ensures
        st_from(d, from) matches Some(j) ==> from <= j && j + 1 < d.len(),
    decreases d.len() - from,
{
    if from + 1 < d.len() && !(d[from as int] == 0x1bu8 && d[from + 1int] == 0x5cu8) {
        lemma_st_from_bounds(d, from + 1);
    }
}

/// The first index of byte `b` in `s`.
pub open spec fn byte_index(s: Seq<u8>, b: u8) -> Option<nat> {
    if exists|i: int| 0 <= i < s.len() && s[i] == b {
        Some(
            (choose|i: int| 0 <= i < s.len() && s[i] == b && forall|j: int| 0 <= j < i ==> s[j] != b) as nat,
        )
    } else {
        None
    }
}

/// The APC spanning `i..j+2`: start, end, control string (the part before
/// the first `;`, decoded lossily) and payload (the part after it).
pub open spec fn apc_at(d: Seq<u8>, i: nat, j: nat) -> (nat, nat, Seq<char>, Seq<u8>) {
    let raw = d.subrange(i + 3int, j as int);
    match byte_index(raw, 0x3bu8) {
        Some(k) => (i, j + 2, utf8_lossy(raw.take(k as int)), raw.skip(k + 1int)),
        None => (i, j + 2, utf8_lossy(raw), Seq::empty()),
    }
}

/// The kitty APCs found scanning `d` from `i`: an `ESC _ G` is matched with
/// the first `ESC \` after it, and scanning resumes after the terminator; an
/// unterminated start is skipped.
pub open spec fn apcs_from(d: Seq<u8>, i: nat) -> Seq<(nat, nat, Seq<char>, Seq<u8>)>
    decreases d.len() - i,
{
    if i + 3 >= d.len() {
        Seq::empty()
    } else if is_apc_start(d, i as int) {
        match st_from(d, i + 3) {
            Some(j) => {
                proof {
                    lemma_st_from_bounds(d, i + 3);
                }
                seq![apc_at(d, i, j)] + apcs_from(d, j + 2)
            },
            None => apcs_from(d, i + 1),
        }
    } else {
        apcs_from(d, i + 1)
    }
}

/// APC `a` lies in `d` where it was found: `ESC _ G` at its start, and its
/// end just after the first `ESC \` that follows the start.
pub open spec fn apc_in_place(d: Seq<u8>, a: (nat, nat, Seq<char>, Seq<u8>)) -> bool {
    &&& a.0 + 5 <= a.1 <= d.len()
    &&& is_apc_start(d, a.0 as int)
    &&& st_from(d, a.0 + 3) == Some((a.1 - 2) as nat)
}

proof fn lemma_apcs_placed(d: Seq<u8>, i: nat)
    ensures
        forall|k: int|
            0 <= k < apcs_from(d, i).len() ==> apc_in_place(d, #[trigger] apcs_from(d, i)[k])
                && i <= apcs_from(d, i)[k].0,
        forall|k: int|
            0 <= k < apcs_from(d, i).len() - 1 ==> (#[trigger] apcs_from(d, i)[k]).1 <= apcs_from(
                d,
                i,
            )[k + 1].0,
    decreases d.len() - i,
{
    if i + 3 >= d.len() {
    } else if is_apc_start(d, i as int) {
        match st_from(d, i + 3) {
            Some(j) => {
                lemma_st_from_bounds(d, i + 3);
                lemma_apcs_placed(d, j + 2);
                let r = apcs_from(d, i);
                let rest = apcs_from(d, j + 2);
                assert(r == seq![apc_at(d, i, j)] + rest);
                assert forall|k: int| 0 <= k < r.len() implies apc_in_place(d, #[trigger] r[k]) && i
                    <= r[k].0 by {
                    if k > 0 {
                        assert(r[k] == rest[k - 1]);
                    }
                }
                assert forall|k: int| 0 <= k < r.len() - 1 implies (#[trigger] r[k]).1 <= r[k + 1].0 by {
                    assert(r[k + 1] == rest[k]);
                    if k > 0 {
                        assert(r[k] == rest[k - 1]);
                    }
                }
            },
            None => {
                lemma_apcs_placed(d, i + 1);
                assert(apcs_from(d, i) == apcs_from(d, i + 1));
            },
        }
    } else {
        lemma_apcs_placed(d, i + 1);
        assert(apcs_from(d, i) == apcs_from(d, i + 1));
    }
}

/// The kitty APCs found in `d` come in order and do not overlap: each opens
/// with `ESC _ G`, ends just after the first `ESC \` that follows, and the
/// next one starts at or after that end.
pub proof fn law_apcs_in_order(d: Seq<u8>)
    ensures
        forall|k: int|
            0 <= k < apcs_from(d, 0).len() ==> apc_in_place(d, #[trigger] apcs_from(d, 0)[k]),
        forall|k: int|
            0 <= k < apcs_from(d, 0).len() - 1 ==> (#[trigger] apcs_from(d, 0)[k]).1 <= apcs_from(
                d,
                0,
            )[k + 1].0,
{
    lemma_apcs_placed(d, 0);
}

/// The model of one extracted APC.
pub open spec fn apc_view(t: (usize, usize, String, Vec<u8>)) -> (nat, nat, Seq<char>, Seq<u8>) {
    (t.0 as nat, t.1 as nat, t.2@, t.3@)
}

fn find_st(d: &[u8], from: usize) -> (r: Option<usize>)
    ensures
        match r {
            Some(j) => st_from(d@, from as nat) == Some(j as nat),
            None => st_from(d@, from as nat) is None,
        },
    decreases d@.len() - from,
{
    if from >= d.len() || d.len() - from < 2 {
        return None;
    }
    if d[from] == 0x1b && d[from + 1] == 0x5c {
        Some(from)
    } else {
        find_st(d, from + 1)
    }
}

fn find_byte(s: &[u8], b: u8) -> (r: Option<usize>)
    ensures
        match r {
            Some(i) => byte_index(s@, b) == Some(i as nat) && i < s@.len(),
            None => byte_index(s@, b) is None,
        },
{
    let mut i: usize = 0;
    while i < s.len()
        invariant
            i <= s@.len(),
            forall|j: int| 0 <= j < i ==> s@[j] != b,
        decreases s.len() - i,
    {
        if s[i] == b {
            proof {
                let k = choose|k: int|
                    0 <= k < s@.len() && s@[k] == b && forall|j: int| 0 <= j < k ==> s@[j] != b;
                if k < i {
                } else if k > i {
                    assert(s@[i as int] != b);
                }
            }
            return Some(i);
        }
        i = i + 1;
    }
    None
}

/// The APC spanning `i..j+2` (see [`apc_at`]).
fn make_apc(data: &[u8], i: usize, j: usize) -> (r: (usize, usize, String, Vec<u8>))
    requires
        i + 3 <= j,
        j + 1 < data@.len(),
    ensures
        apc_view(r) == apc_at(data@, i as nat, j as nat),
{
    let n = data.len();
    let raw = vstd::slice::slice_subrange(data, i + 3, j);
    match find_byte(raw, 0x3b) {
        Some(k) => {
            let control = lossy_string(vstd::slice::slice_subrange(raw, 0, k));
            let payload = vstd::slice::slice_to_vec(
                vstd::slice::slice_subrange(raw, k + 1, raw.len()),
            );
            assert(payload@ == raw@.skip(k + 1));
            (i, j + 2, control, payload)
        },
        None => (i, j + 2, lossy_string(raw), Vec::new()),
    }
}

/// Scan `data` for kitty APC sequences (`\x1b_G…\x1b\\`) and return each as
/// `(start_byte, end_byte, control_string, base64_payload)`.
pub fn extract_kitty_apcs(data: &[u8]) -> (r: Vec<(usize, usize, String, Vec<u8>)>)
    ensures
        r@.map_values(|t: (usize, usize, String, Vec<u8>)| apc_view(t)) == apcs_from(data@, 0),
{
    let mut out: Vec<(usize, usize, String, Vec<u8>)> = Vec::new();
    let len = data.len();
    let mut i: usize = 0;
    while i < len && len - i > 3
        invariant
            i <= len,
            len == data@.len(),
            out@.map_values(|t: (usize, usize, String, Vec<u8>)| apc_view(t)) + apcs_from(
                data@,
                i as nat,
            ) == apcs_from(data@, 0),
        decreases len - i,
    {
        if data[i] == 0x1b && data[i + 1] == 0x5f && data[i + 2] == 0x47 {
            match find_st(data, i + 3) {
                Some(j) => {
                    proof {
                        lemma_st_from_bounds(data@, (i + 3) as nat);
                    }
                    let item = make_apc(data, i, j);
                    let ghost before = out@;
                    out.push(item);
                    assert(apc_view(item) == apc_at(data@, i as nat, j as nat));
                    assert(out@.map_values(|t: (usize, usize, String, Vec<u8>)| apc_view(t))
                        =~= before.map_values(|t: (usize, usize, String, Vec<u8>)| apc_view(t)).push(
                        apc_view(item),
                    ));
                    i = j + 2;
                },
                None => {
                    i = i + 1;
                },
            }
        } else {
            i = i + 1;
        }
    }
    assert(apcs_from(data@, i as nat) == Seq::<(nat, nat, Seq<char>, Seq<u8>)>::empty());
    out
}

// ── kitty control data ─────────────────────────────────────────────────

/// One `key=value` piece of a control string: the key trimmed and
/// lower-cased, the value trimmed (empty when there is no `=`).
pub open spec fn control_pair(piece: Seq<char>) -> (Seq<char>, Seq<char>) {
    match index_of(piece, '=') {
        Some(k) => (ascii_lower(trim(piece.take(k as int))), trim(piece.skip(k + 1int))),
        None => (ascii_lower(trim(piece)), Seq::empty()),
    }
}

/// The pairs of the pieces, those with an empty key dropped.
pub open spec fn pairs_of(pieces: Seq<Seq<char>>) -> Seq<(Seq<char>, Seq<char>)>
    decreases pieces.len(),
{
    if pieces.len() == 0 {
        Seq::empty()
    } else {
        let p = control_pair(pieces.last());
        pairs_of(pieces.drop_last()) + if p.0.len() > 0 {
            seq![p]
        } else {
            Seq::empty()
        }
    }
}

/// The `key=value` pairs of a comma-separated kitty control string.
pub open spec fn control_pairs(control: Seq<char>) -> Seq<(Seq<char>, Seq<char>)> {
    pairs_of(split_on(control, ','))
}

/// The value of the first pair whose key is `key`.
pub open spec fn lookup(pairs: Seq<(Seq<char>, Seq<char>)>, key: Seq<char>) -> Option<Seq<char>>
    decreases pairs.len(),
{
    if pairs.len() == 0 {
        None
    } else if pairs[0].0 == key {
        Some(pairs[0].1)
    } else {
        lookup(pairs.drop_first(), key)
    }
}

/// The value of the first pair whose key is `key`, as a `u32`.
pub open spec fn ctrl_u32(pairs: Seq<(Seq<char>, Seq<char>)>, key: Seq<char>) -> Option<u32> {
    match lookup(pairs, key) {
        Some(v) => parse_u32_spec(v),
        None => None,
    }
}

/// Some pair asks for display: `a=t` or `a=T`.
pub open spec fn wants_display(pairs: Seq<(Seq<char>, Seq<char>)>) -> bool {
    exists|i: int|
        0 <= i < pairs.len() && #[trigger] pairs[i].0 == "a"@ && (pairs[i].1 == "t"@ || pairs[i].1
            == "T"@)
}

pub open spec fn pair_view(p: (Vec<char>, Vec<char>)) -> (Seq<char>, Seq<char>) {
    (p.0@, p.1@)
}

pub open spec fn pairs_view(ps: Seq<(Vec<char>, Vec<char>)>) -> Seq<(Seq<char>, Seq<char>)> {
    ps.map_values(|p: (Vec<char>, Vec<char>)| pair_view(p))
}

fn split_pair(piece: &[char]) -> (r: (Vec<char>, Vec<char>))
    ensures
        pair_view(r) == control_pair(piece@),
{
    let n = piece.len();
    match find_char(piece, '=') {
        Some(k) => {
            let key = trim_chars(vstd::slice::slice_subrange(piece, 0, k));
            let key = to_ascii_lower(key.as_slice());
            let rest = vstd::slice::slice_subrange(piece, k + 1, piece.len());
            assert(rest@ == piece@.skip(k + 1));
            let value = trim_chars(rest);
            (key, value)
        },
        None => {
            let key = trim_chars(piece);
            (to_ascii_lower(key.as_slice()), Vec::new())
        },
    }
}

/// Parse a kitty control string (`key=val,key=val,…`) into its pairs.
fn parse_control(raw: &str) -> (pairs: Vec<(Vec<char>, Vec<char>)>)
    ensures
        pairs_view(pairs@) == control_pairs(raw@),
{
    let cs = str_chars(raw);
    let pieces = split_chars(cs.as_slice(), ',');
    let ghost pv = pieces@.map_values(|p: Vec<char>| p@);
    let mut pairs: Vec<(Vec<char>, Vec<char>)> = Vec::new();
    let mut i: usize = 0;
    while i < pieces.len()
        invariant
            i <= pieces@.len(),
            pv == pieces@.map_values(|p: Vec<char>| p@),
            pairs_view(pairs@) == pairs_of(pv.take(i as int)),
        decreases pieces.len() - i,
    {
        let p = split_pair(pieces[i].as_slice());
        assert(pv.take(i + 1).drop_last() == pv.take(i as int));
        assert(pv.take(i + 1).last() == pieces@[i as int]@);
        let ghost before = pairs@;
        if p.0.len() > 0 {
            pairs.push(p);
            assert(pairs_view(pairs@) =~= pairs_view(before) + seq![pair_view(p)]);
        } else {
            assert(pairs_of(pv.take(i + 1)) =~= pairs_of(pv.take(i as int)));
        }
        i = i + 1;
    }
    assert(pv.take(pieces@.len() as int) == pv);
    pairs
}

/// The value of the first pair whose key is `key`, as a `u32`.
fn pair_u32(pairs: &Vec<(Vec<char>, Vec<char>)>, key: &str) -> (r: Option<u32>)
    ensures
        r == ctrl_u32(pairs_view(pairs@), key@),
{
    let ghost pv = pairs_view(pairs@);
    assert(pv.skip(0) == pv);
    let mut i: usize = 0;
    while i < pairs.len()
        invariant
            i <= pairs@.len(),
            pv == pairs_view(pairs@),
            lookup(pv, key@) == lookup(pv.skip(i as int), key@),
        decreases pairs.len() - i,
    {
        assert(pv.skip(i as int).drop_first() == pv.skip(i + 1));
        if chars_eq(pairs[i].0.as_slice(), key) {
            return parse_u32(pairs[i].1.as_slice());
        }
        i = i + 1;
    }
    None
}

/// Whether some pair is `a=t` or `a=T`.
fn pairs_want_display(pairs: &Vec<(Vec<char>, Vec<char>)>) -> (r: bool)
    ensures
        r == wants_display(pairs_view(pairs@)),
{
    let ghost pv = pairs_view(pairs@);
    let mut i: usize = 0;
    while i < pairs.len()
        invariant
            i <= pairs@.len(),
            pv == pairs_view(pairs@),
            forall|j: int|
                0 <= j < i ==> !(#[trigger] pv[j].0 == "a"@ && (pv[j].1 == "t"@ || pv[j].1 == "T"@)),
        decreases pairs.len() - i,
    {
        if chars_eq(pairs[i].0.as_slice(), "a") && (chars_eq(pairs[i].1.as_slice(), "t")
            || chars_eq(pairs[i].1.as_slice(), "T")) {
            assert(pv[i as int].0 == "a"@);
            return true;
        }
        i = i + 1;
    }
    false
}

// ── kitty transfer assembly ────────────────────────────────────────────

/// A transfer with nothing received yet.
pub open spec fn empty_pending() -> PendingView {
    PendingView {
        data: Seq::empty(),
        pixel_w: None,
        pixel_h: None,
        cells_w: None,
        cells_h: None,
        place: false,
    }
}

pub open spec fn or_u32(v: Option<u32>, d: u32) -> u32 {
    match v {
        Some(x) => x,
        None => d,
    }
}

/// `entry` after one more chunk: the payload appended, dimension hints
/// filled in where not yet known, display requested once any chunk asks.
pub open spec fn merged_pending(
    entry: PendingView,
    pairs: Seq<(Seq<char>, Seq<char>)>,
    payload: Seq<u8>,
) -> PendingView {
    PendingView {
        data: entry.data + payload,
        pixel_w: if entry.pixel_w is None {
            ctrl_u32(pairs, "s"@)
        } else {
            entry.pixel_w
        },
        pixel_h: if entry.pixel_h is None {
            ctrl_u32(pairs, "v"@)
        } else {
            entry.pixel_h
        },
        cells_w: if entry.cells_w is None {
            ctrl_u32(pairs, "c"@)
        } else {
            entry.cells_w
        },
        cells_h: if entry.cells_h is None {
            ctrl_u32(pairs, "r"@)
        } else {
            entry.cells_h
        },
        place: entry.place || wants_display(pairs),
    }
}

/// The placement made for a finished transfer of image `id` at `(row, col)`:
/// missing pixel sizes are 0, cell sizes at least 1.
pub open spec fn placement_for(id: u32, entry: PendingView, row: usize, col: usize) -> Placement {
    Placement {
        image_id: id,
        row,
        col,
        pixel_w: or_u32(entry.pixel_w, 0),
        pixel_h: or_u32(entry.pixel_h, 0),
        cells_w: if or_u32(entry.cells_w, 1) >= 1 {
            or_u32(entry.cells_w, 1)
        } else {
            1
        },
        cells_h: if or_u32(entry.cells_h, 1) >= 1 {
            or_u32(entry.cells_h, 1)
        } else {
            1
        },
    }
}

/// The transfers, images and placements after one kitty APC with `control`
/// and `payload` arrives while the cursor is at `(row, col)`. Chunks are
/// accumulated per image id (`i=`, default 0); while `m=` is non-zero the
/// transfer stays pending; otherwise it ends, and when display was requested
/// and the base64 decodes, the image is stored and placed.
pub open spec fn kitty_step(
    pending: Map<u32, PendingView>,
    images: Map<u32, Seq<u8>>,
    placements: Seq<Placement>,
    control: Seq<char>,
    payload: Seq<u8>,
    row: usize,
    col: usize,
) -> (Map<u32, PendingView>, Map<u32, Seq<u8>>, Seq<Placement>) {
    let pairs = control_pairs(control);
    let id = or_u32(ctrl_u32(pairs, "i"@), 0);
    let entry0 = if pending.contains_key(id) {
        pending[id]
    } else {
        empty_pending()
    };
    let entry = merged_pending(entry0, pairs, payload);
    let more = match ctrl_u32(pairs, "m"@) {
        Some(m) => m != 0,
        None => false,
    };
    if more {
        (pending.insert(id, entry), images, placements)
    } else if !entry.place {
        (pending.remove(id), images, placements)
    } else {
        match base64_decoded(entry.data) {
            None => (pending.remove(id), images, placements),
            Some(data) => (
                pending.remove(id),
                images.insert(id, data),
                placements.push(placement_for(id, entry, row, col)),
            ),
        }
    }
}

/// Process one kitty APC `control` + `payload` (base64). Accumulates
/// chunked transfers in `state` and, when a placement is complete,
/// inserts the image into `store` at (`cursor_row`, `cursor_col`).
pub fn process_kitty_apc(
    state: &mut KittyDecodeState,
    control: &str,
    payload: &[u8],
    cursor_row: usize,
    cursor_col: usize,
    store: &mut InlineImageStore,
)
    ensures
        (final(state).pending_map(), final(store).image_map(), final(store).placement_seq())
            == kitty_step(
            old(state).pending_map(),
            old(store).image_map(),
            old(store).placement_seq(),
            control@,
            payload@,
            cursor_row,
            cursor_col,
        ),
        final(store).next_id() == old(store).next_id(),
{
    let pairs = parse_control(control);
    let ghost pv = pairs_view(pairs@);
    let image_id = match pair_u32(&pairs, "i") {
        Some(v) => v,
        None => 0,
    };
    let more = match pair_u32(&pairs, "m") {
        Some(m) => m != 0,
        None => false,
    };
    let is_place = pairs_want_display(&pairs);
    let ghost p0 = state.pending_map();
    let mut entry = match state.pending.remove(&image_id) {
        Some(e) => e,
        None => PendingImage {
            data: Vec::new(),
            pixel_w: None,
            pixel_h: None,
            cells_w: None,
            cells_h: None,
            place: false,
        },
    };
    assert(state.pending_map() =~= p0.remove(image_id));
    let ghost e0 = entry@;
    assert(e0 == if p0.contains_key(image_id) {
        p0[image_id]
    } else {
        empty_pending()
    });
    let mut k: usize = 0;
    while k < payload.len()
        invariant
            k <= payload@.len(),
            entry@ == (PendingView { data: e0.data + payload@.take(k as int), ..e0 }),
        decreases payload.len() - k,
    {
        entry.data.push(payload[k]);
        assert(entry.data@ =~= e0.data + payload@.take(k + 1));
        k = k + 1;
    }
    assert(payload@.take(payload@.len() as int) == payload@);
    if entry.pixel_w.is_none() {
        entry.pixel_w = pair_u32(&pairs, "s");
    }
    if entry.pixel_h.is_none() {
        entry.pixel_h = pair_u32(&pairs, "v");
    }
    if entry.cells_w.is_none() {
        entry.cells_w = pair_u32(&pairs, "c");
    }
    if entry.cells_h.is_none() {
        entry.cells_h = pair_u32(&pairs, "r");
    }
    if is_place {
        entry.place = true;
    }
    assert(entry@ == merged_pending(e0, pv, payload@));
    if more {
        let ghost ev = entry@;
        state.pending.insert(image_id, entry);
        assert(state.pending_map() =~= p0.insert(image_id, ev));
        return;
    }
    if !entry.place {
        return;
    }
    let data = match b64_decode(entry.data.as_slice()) {
        Some(d) => d,
        None => {
            return;
        },
    };
    let pixel_w = match entry.pixel_w {
        Some(v) => v,
        None => 0,
    };
    let pixel_h = match entry.pixel_h {
        Some(v) => v,
        None => 0,
    };
    let cw = match entry.cells_w {
        Some(v) => v,
        None => 1,
    };
    let ch = match entry.cells_h {
        Some(v) => v,
        None => 1,
    };
    let cells_w = if cw >= 1 {
        cw
    } else {
        1
    };
    let cells_h = if ch >= 1 {
        ch
    } else {
        1
    };
    store.insert(InlineImage { id: image_id, data });
    store.place(
        Placement {
            image_id,
            row: cursor_row,
            col: cursor_col,
            pixel_w,
            pixel_h,
            cells_w,
            cells_h,
        },
    );
}

// ── kitty APCs split across reads ──────────────────────────────────────

/// `ESC _ G`, the start of a kitty APC.
pub open spec fn apc_marker() -> Seq<u8> {
    seq![0x1bu8, 0x5fu8, 0x47u8]
}

/// `s` is a non-empty proper prefix of `ESC _ G`.
pub open spec fn is_partial_marker(s: Seq<u8>) -> bool {
    0 < s.len() < 3 && s == apc_marker().take(s.len() as int)
}

/// The unfinished kitty APC at the end of `d` (scanning from `i` as
/// [`apcs_from`] does): an `ESC _ G` with no terminator after it, or a
/// partial `ESC _ G` at the very end; empty when there is none.
pub open spec fn tail_from(d: Seq<u8>, i: nat) -> Seq<u8>
    decreases d.len() - i,
{
    if i >= d.len() {
        Seq::empty()
    } else if i + 3 <= d.len() && is_apc_start(d, i as int) {
        match st_from(d, i + 3) {
            Some(j) => {
                proof {
                    lemma_st_from_bounds(d, i + 3);
                }
                tail_from(d, j + 2)
            },
            None => d.skip(i as int),
        }
    } else if i + 3 > d.len() && is_partial_marker(d.skip(i as int)) {
        d.skip(i as int)
    } else {
        tail_from(d, i + 1)
    }
}

/// The control strings and payloads of a list of APCs, without their
/// positions.
pub open spec fn apc_contents(s: Seq<(nat, nat, Seq<char>, Seq<u8>)>) -> Seq<(Seq<char>, Seq<u8>)> {
    s.map_values(|t: (nat, nat, Seq<char>, Seq<u8>)| (t.2, t.3))
}

proof fn lemma_apc_contents_push(x: (nat, nat, Seq<char>, Seq<u8>), s: Seq<(nat, nat, Seq<char>, Seq<u8>)>)
    ensures
        apc_contents(seq![x] + s) == seq![(x.2, x.3)] + apc_contents(s),
{
    assert(apc_contents(seq![x] + s) =~= seq![(x.2, x.3)] + apc_contents(s));
}

/// Searching for a terminator after a prefix finds it at the same place,
/// moved by the prefix.
proof fn lemma_st_shift(p: Seq<u8>, q: Seq<u8>, k: nat)
    ensures
        st_from(p + q, p.len() + k) == match st_from(q, k) {
            Some(j) => Some(p.len() + j),
            None => None::<nat>,
        },
    decreases q.len() - k,
{
    let d = p + q;
    if k + 1 < q.len() {
        assert(d[p.len() + k as int] == q[k as int]);
        assert(d[p.len() + k + 1int] == q[k + 1int]);
        lemma_st_shift(p, q, k + 1);
    }
}

/// Scanning after a prefix finds the same APCs.
proof fn lemma_apcs_shift(p: Seq<u8>, q: Seq<u8>, k: nat)
    ensures
        apc_contents(apcs_from(p + q, p.len() + k)) == apc_contents(apcs_from(q, k)),
    decreases q.len() - k,
{
    let d = p + q;
    let i = p.len() + k;
    if k + 3 < q.len() {
        assert(d[i as int] == q[k as int] && d[i + 1int] == q[k + 1int] && d[i + 2int] == q[k + 2int]);
        if is_apc_start(q, k as int) {
            lemma_st_shift(p, q, k + 3);
            match st_from(q, k + 3) {
                Some(j) => {
                    lemma_st_from_bounds(q, k + 3);
                    lemma_apcs_shift(p, q, j + 2);
                    assert(d.subrange(i + 3int, p.len() + j as int) == q.subrange(k + 3int, j as int));
                    lemma_apc_contents_push(apc_at(d, i, p.len() + j), apcs_from(d, p.len() + j + 2));
                    lemma_apc_contents_push(apc_at(q, k, j), apcs_from(q, j + 2));
                },
                None => {
                    lemma_apcs_shift(p, q, k + 1);
                },
            }
        } else {
            lemma_apcs_shift(p, q, k + 1);
        }
    }
}

/// A terminator found in `x` is found first in `x` followed by more.
proof fn lemma_st_prefix(x: Seq<u8>, b: Seq<u8>, a: nat)
    requires
        st_from(x, a) is Some,
    ensures
        st_from(x + b, a) == st_from(x, a),
    decreases x.len() - a,
{
    let d = x + b;
    if a + 1 < x.len() {
        assert(d[a as int] == x[a as int] && d[a + 1int] == x[a + 1int]);
        if !(x[a as int] == 0x1bu8 && x[a + 1int] == 0x5cu8) {
            lemma_st_prefix(x, b, a + 1);
        }
    }
}

/// No terminator from `a` means none from anywhere later.
proof fn lemma_st_none_later(x: Seq<u8>, a: nat, c: nat)
    requires
        st_from(x, a) is None,
        a <= c,
    ensures
        st_from(x, c) is None,
    decreases c - a,
{
    if a < c {
        lemma_st_none_later(x, a, (c - 1) as nat);
    }
}

/// With no terminator from `a` on, no APC is found from `k` on when its
/// control would start at or after `a`.
proof fn lemma_apcs_none_after(x: Seq<u8>, a: nat, k: nat)
    requires
        st_from(x, a) is None,
        a <= k + 3,
    ensures
        apcs_from(x, k) == Seq::<(nat, nat, Seq<char>, Seq<u8>)>::empty(),
    decreases x.len() - k,
{
    if k + 3 < x.len() {
        lemma_st_none_later(x, a, k + 3);
        lemma_apcs_none_after(x, a, k + 1);
    }
}

/// The APCs of `x` followed by `b`, scanning from `i` within `x`: those of
/// `x` from `i`, then those of what `x` leaves unfinished followed by `b`.
proof fn lemma_apcs_split_from(x: Seq<u8>, b: Seq<u8>, i: nat)
    requires
        i <= x.len(),
    ensures
        apc_contents(apcs_from(x + b, i)) == apc_contents(apcs_from(x, i)) + apc_contents(
            apcs_from(tail_from(x, i) + b, 0),
        ),
    decreases x.len() - i,
{
    let d = x + b;
    let none = Seq::<(nat, nat, Seq<char>, Seq<u8>)>::empty();
    assert(apc_contents(none) =~= Seq::<(Seq<char>, Seq<u8>)>::empty());
    if i == x.len() {
        assert(tail_from(x, i) + b == b);
        assert(d == x + b);
        lemma_apcs_shift(x, b, 0);
        assert(apc_contents(apcs_from(x, i)) + apc_contents(apcs_from(b, 0)) =~= apc_contents(
            apcs_from(b, 0),
        ));
    } else if i + 3 <= x.len() && is_apc_start(x, i as int) {
        assert(d[i as int] == x[i as int] && d[i + 1int] == x[i + 1int] && d[i + 2int] == x[i + 2int]);
        match st_from(x, i + 3) {
            Some(j) => {
                lemma_st_from_bounds(x, i + 3);
                lemma_st_prefix(x, b, i + 3);
                assert(d.subrange(i + 3int, j as int) == x.subrange(i + 3int, j as int));
                assert(apc_at(d, i, j) == apc_at(x, i, j));
                lemma_apcs_split_from(x, b, j + 2);
                lemma_apc_contents_push(apc_at(x, i, j), apcs_from(d, j + 2));
                lemma_apc_contents_push(apc_at(x, i, j), apcs_from(x, j + 2));
                assert(seq![(apc_at(x, i, j).2, apc_at(x, i, j).3)] + (apc_contents(apcs_from(x, j + 2))
                    + apc_contents(apcs_from(tail_from(x, j + 2) + b, 0))) == (seq![
                    (apc_at(x, i, j).2, apc_at(x, i, j).3),
                ] + apc_contents(apcs_from(x, j + 2))) + apc_contents(
                    apcs_from(tail_from(x, j + 2) + b, 0),
                ));
            },
            None => {
                lemma_apcs_none_after(x, i + 3, i + 1);
                let p = x.take(i as int);
                assert(d == p + (x.skip(i as int) + b));
                lemma_apcs_shift(p, x.skip(i as int) + b, 0);
                if i + 3 < x.len() {
                    assert(apcs_from(x, i) == apcs_from(x, i + 1));
                }
                assert(apc_contents(apcs_from(x, i)) + apc_contents(apcs_from(x.skip(i as int) + b, 0))
                    =~= apc_contents(apcs_from(x.skip(i as int) + b, 0)));
            },
        }
    } else if i + 3 > x.len() && is_partial_marker(x.skip(i as int)) {
        let p = x.take(i as int);
        assert(d == p + (x.skip(i as int) + b));
        lemma_apcs_shift(p, x.skip(i as int) + b, 0);
        assert(apc_contents(apcs_from(x, i)) + apc_contents(apcs_from(x.skip(i as int) + b, 0))
            =~= apc_contents(apcs_from(x.skip(i as int) + b, 0)));
    } else {
        lemma_apcs_split_from(x, b, i + 1);
        if i + 3 < d.len() {
            if i + 3 <= x.len() {
                assert(d[i as int] == x[i as int] && d[i + 1int] == x[i + 1int] && d[i + 2int] == x[i + 2int]);
            } else {
                let s = x.skip(i as int);
                assert(s.len() > 0);
                if is_apc_start(d, i as int) {
                    assert(s =~= apc_marker().take(s.len() as int));
                }
            }
        }
    }
}

/// Splitting a byte stream anywhere does not change which kitty APCs are
/// found: those of the whole are those of the first part, then those of
/// what the first part leaves unfinished followed by the second part.
pub proof fn law_apcs_split_anywhere(x: Seq<u8>, b: Seq<u8>)
    ensures
        apc_contents(apcs_from(x + b, 0)) == apc_contents(apcs_from(x, 0)) + apc_contents(
            apcs_from(tail_from(x, 0) + b, 0),
        ),
{
    lemma_apcs_split_from(x, b, 0);
}

// ── reading back what the kitty encoder writes ─────────────────────────

/// A character that may stand inside a kitty frame's control data or
/// payload: ASCII, and neither ESC nor `;`.
pub open spec fn is_plain_frame_char(c: char) -> bool {
    (c as u32) < 128 && c != '\x1b' && c != ';'
}

/// Every character of `s` may stand inside a kitty frame.
pub open spec fn plain_chars(s: Seq<char>) -> bool {
    forall|i: int| 0 <= i < s.len() ==> is_plain_frame_char(#[trigger] s[i])
}

/// The bytes of an ASCII string.
pub open spec fn ascii_bytes(s: Seq<char>) -> Seq<u8> {
    s.map_values(|c: char| c as u8)
}

/// What reading the frames of [`kitty_frames`] back gives, chunk by chunk:
/// the control data (decoded as the reader decodes it) and the payload.
pub open spec fn kitty_chunks(req: GraphicsRequest, b64: Seq<char>, start: nat) -> Seq<
    (Seq<char>, Seq<u8>),
>
    decreases b64.len() - start,
{
    if start >= b64.len() {
        Seq::empty()
    } else {
        seq![
            (
                utf8_lossy(ascii_bytes(kitty_control(req, start, b64.len()))),
                ascii_bytes(b64.subrange(start as int, chunk_end(start, b64.len()) as int)),
            ),
        ] + kitty_chunks(req, b64, chunk_end(start, b64.len()))
    }
}

proof fn lemma_plain_concat(a: Seq<char>, b: Seq<char>)
    requires
        plain_chars(a),
        plain_chars(b),
    ensures
        plain_chars(a + b),
{
    assert forall|i: int| 0 <= i < (a + b).len() implies is_plain_frame_char(#[trigger] (a + b)[i]) by {
        if i < a.len() {
            assert((a + b)[i] == a[i]);
        } else {
            assert((a + b)[i] == b[i - a.len()]);
        }
    }
}

proof fn lemma_decimal_plain(n: nat)
    ensures
        plain_chars(decimal(n)),
    decreases n,
{
    if n < 10 {
        assert(decimal(n) == seq![crate::text::digit_char(n)]);
    } else {
        lemma_decimal_plain(n / 10);
        lemma_plain_concat(decimal(n / 10), seq![crate::text::digit_char(n % 10)]);
        assert(decimal(n) == decimal(n / 10) + seq![crate::text::digit_char(n % 10)]);
    }
}

proof fn lemma_control_plain(req: GraphicsRequest, start: nat, len: nat)
    ensures
        plain_chars(kitty_control(req, start, len)),
{
    reveal_strlit("a=t,t=d,f=100,s=");
    reveal_strlit(",v=");
    reveal_strlit(",c=");
    reveal_strlit(",r=");
    reveal_strlit(",m=1");
    reveal_strlit("m=1");
    reveal_strlit("m=0");
    lemma_decimal_plain(req.pixel_w as nat);
    lemma_decimal_plain(req.pixel_h as nat);
    lemma_decimal_plain(req.cells_w as nat);
    lemma_decimal_plain(req.cells_h as nat);
    let w = "a=t,t=d,f=100,s="@ + decimal(req.pixel_w as nat);
    lemma_plain_concat("a=t,t=d,f=100,s="@, decimal(req.pixel_w as nat));
    let h = w + ",v="@ + decimal(req.pixel_h as nat);
    lemma_plain_concat(w, ",v="@);
    lemma_plain_concat(w + ",v="@, decimal(req.pixel_h as nat));
    let c = h + ",c="@ + decimal(req.cells_w as nat);
    lemma_plain_concat(h, ",c="@);
    lemma_plain_concat(h + ",c="@, decimal(req.cells_w as nat));
    let r = c + ",r="@ + decimal(req.cells_h as nat);
    lemma_plain_concat(c, ",r="@);
    lemma_plain_concat(c + ",r="@, decimal(req.cells_h as nat));
    lemma_plain_concat(r, ",m=1"@);
    assert(plain_chars(Seq::<char>::empty()));
    assert(r + Seq::<char>::empty() == r);
}

proof fn lemma_plain_byte(c: char)
    requires
        is_plain_frame_char(c),
    ensures
        (c as u8) != 0x1bu8,
        (c as u8) != 0x3bu8,
        c <= '\x7f',
{
}

/// The terminator search stops at the first `ESC \`.
proof fn lemma_st_at(d: Seq<u8>, a: nat, j: nat)
    requires
        a <= j,
        j + 1 < d.len(),
        d[j as int] == 0x1bu8,
        d[j + 1int] == 0x5cu8,
        forall|k: int| a <= k < j ==> d[k] != 0x1bu8,
    ensures
        st_from(d, a) == Some(j),
    decreases j - a,
{
    if a < j {
        lemma_st_at(d, a + 1, j);
    }
}

/// The first `b` in `s` is at `k`.
proof fn lemma_byte_index_at(s: Seq<u8>, b: u8, k: nat)
    requires
        k < s.len(),
        s[k as int] == b,
        forall|j: int| 0 <= j < k ==> s[j] != b,
    ensures
        byte_index(s, b) == Some(k),
{
    let i = choose|i: int| 0 <= i < s.len() && s[i] == b && forall|j: int| 0 <= j < i ==> s[j] != b;
    assert(0 <= k < s.len() && s[k as int] == b);
    if i < k {
    } else if i > k {
        assert(s[k as int] != b);
    }
}

proof fn lemma_ascii_bytes_concat(a: Seq<char>, b: Seq<char>)
    ensures
        ascii_bytes(a + b) == ascii_bytes(a) + ascii_bytes(b),
{
    assert(ascii_bytes(a + b) =~= ascii_bytes(a) + ascii_bytes(b));
}

proof fn lemma_b64_plain(b64: Seq<char>)
    requires
        forall|i: int| 0 <= i < b64.len() ==> is_b64_char(#[trigger] b64[i]),
    ensures
        plain_chars(b64),
{
}

/// Reading back one frame followed by more bytes: the frame's chunk, then
/// what the rest gives.
#[verifier::spinoff_prover]
#[verifier::rlimit(40)]
proof fn lemma_frame_read_back(control: Seq<char>, chunk: Seq<char>, rest: Seq<u8>)
    requires
        plain_chars(control),
        plain_chars(chunk),
    ensures
        apc_contents(
            apcs_from(ascii_bytes("\x1b_G"@ + control + ";"@ + chunk + "\x1b\\"@) + rest, 0),
        ) == seq![(utf8_lossy(ascii_bytes(control)), ascii_bytes(chunk))] + apc_contents(
            apcs_from(rest, 0),
        ),
{
    reveal_strlit("\x1b_G");
    reveal_strlit(";");
    reveal_strlit("\x1b\\");
    let cb = ascii_bytes(control);
    let pb = ascii_bytes(chunk);
    let fb = seq![0x1bu8, 0x5fu8, 0x47u8] + cb + seq![0x3bu8] + pb + seq![0x1bu8, 0x5cu8];
    let frame = "\x1b_G"@ + control + ";"@ + chunk + "\x1b\\"@;
    assert(ascii_bytes(frame) =~= fb);
    let d = fb + rest;
    let j = (fb.len() - 2) as nat;
    let s1 = seq![0x1bu8, 0x5fu8, 0x47u8] + cb;
    let s2 = s1 + seq![0x3bu8];
    let s3 = s2 + pb;
    assert(fb == s3 + seq![0x1bu8, 0x5cu8]);
    assert forall|k: int| 3 <= k < j implies d[k] != 0x1bu8 by {
        assert(d[k] == fb[k]);
        assert(fb[k] == s3[k]);
        if k < 3 + cb.len() {
            assert(s3[k] == s2[k] && s2[k] == s1[k] && s1[k] == cb[k - 3]);
            lemma_plain_byte(control[k - 3]);
        } else if k == 3 + cb.len() {
            assert(s3[k] == s2[k]);
        } else {
            assert(s3[k] == pb[k - 4 - cb.len()]);
            lemma_plain_byte(chunk[k - 4 - cb.len()]);
        }
    }
    lemma_st_at(d, 3, j);
    assert(is_apc_start(d, 0));
    let raw = d.subrange(3, j as int);
    assert(raw =~= cb + seq![0x3bu8] + pb);
    assert forall|k: int| 0 <= k < cb.len() implies raw[k] != 0x3bu8 by {
        assert(raw[k] == cb[k]);
        lemma_plain_byte(control[k]);
    }
    lemma_byte_index_at(raw, 0x3bu8, cb.len());
    assert(raw.take(cb.len() as int) =~= cb);
    assert(raw.skip(cb.len() + 1int) =~= pb);
    lemma_apcs_shift(fb, rest, 0);
    lemma_apc_contents_push(apc_at(d, 0, j), apcs_from(d, j + 2));
}

proof fn lemma_frames_read_back(req: GraphicsRequest, b64: Seq<char>, start: nat)
    requires
        plain_chars(b64),
    ensures
        apc_contents(apcs_from(ascii_bytes(kitty_frames(req, b64, start)), 0)) == kitty_chunks(
            req,
            b64,
            start,
        ),
    decreases b64.len() - start,
{
    if start >= b64.len() {
        assert(ascii_bytes(Seq::<char>::empty()) =~= Seq::<u8>::empty());
        assert(apc_contents(Seq::<(nat, nat, Seq<char>, Seq<u8>)>::empty()) =~= Seq::<
            (Seq<char>, Seq<u8>),
        >::empty());
    } else {
        let end = chunk_end(start, b64.len());
        let control = kitty_control(req, start, b64.len());
        let chunk = b64.subrange(start as int, end as int);
        lemma_control_plain(req, start, b64.len());
        assert(plain_chars(chunk)) by {
            assert forall|i: int| 0 <= i < chunk.len() implies is_plain_frame_char(#[trigger] chunk[i]) by {
                assert(chunk[i] == b64[start + i]);
            }
        }
        lemma_frames_read_back(req, b64, end);
        let frame = kitty_frame(req, b64, start);
        lemma_ascii_bytes_concat(frame, kitty_frames(req, b64, end));
        lemma_frame_read_back(control, chunk, ascii_bytes(kitty_frames(req, b64, end)));
    }
}

proof fn lemma_char_at_least_nul(c: char)
    ensures
        '\0' <= c,
{
}

/// A string of ASCII characters is encoded in UTF-8 one byte per character.
proof fn lemma_ascii_encoding(s: Seq<char>)
    requires
        forall|i: int| 0 <= i < s.len() ==> #[trigger] s[i] <= '\x7f',
    ensures
        encode_utf8(s) == ascii_bytes(s),
{
    assert forall|i: int| 0 <= i < s.len() implies '\0' <= #[trigger] s[i] <= '\x7f' by {
        lemma_char_at_least_nul(s[i]);
    }
    assert(vstd::utf8::is_ascii_chars(s));
    vstd::utf8::is_ascii_chars_encode_utf8(s);
    assert(encode_utf8(s) =~= ascii_bytes(s));
}

proof fn lemma_frames_ascii(req: GraphicsRequest, b64: Seq<char>, start: nat)
    requires
        plain_chars(b64),
    ensures
        forall|i: int|
            0 <= i < kitty_frames(req, b64, start).len() ==> #[trigger] kitty_frames(
                req,
                b64,
                start,
            )[i] <= '\x7f',
    decreases b64.len() - start,
{
    if start < b64.len() {
        let end = chunk_end(start, b64.len());
        lemma_frames_ascii(req, b64, end);
        lemma_control_plain(req, start, b64.len());
        reveal_strlit("\x1b_G");
        reveal_strlit(";");
        reveal_strlit("\x1b\\");
        let control = kitty_control(req, start, b64.len());
        let chunk = b64.subrange(start as int, end as int);
        let frame = kitty_frame(req, b64, start);
        let rest = kitty_frames(req, b64, end);
        assert(frame =~= seq!['\x1b', '_', 'G'] + control + seq![';'] + chunk + seq!['\x1b', '\\']);
        assert forall|i: int| 0 <= i < (frame + rest).len() implies #[trigger] (frame + rest)[i] <= '\x7f' by {
            if i < frame.len() {
                let k = i - 3 - control.len();
                if 3 <= i < 3 + control.len() {
                    assert(frame[i] == control[i - 3]);
                    lemma_plain_byte(control[i - 3]);
                } else if 4 + control.len() <= i < 4 + control.len() + chunk.len() {
                    assert(frame[i] == chunk[i - 4 - control.len()]);
                    assert(chunk[i - 4 - control.len()] == b64[start + i - 4 - control.len()]);
                    lemma_plain_byte(b64[start + i - 4 - control.len()]);
                }
                assert((frame + rest)[i] == frame[i]);
            } else {
                assert((frame + rest)[i] == rest[i - frame.len()]);
            }
        }
    }
}

/// What the kitty encoder writes, the kitty reader reads back: scanning the
/// UTF-8 bytes of the frames for APCs gives each frame's control data and
/// its chunk of the base64 text, in order.
pub proof fn law_kitty_frames_read_back(req: GraphicsRequest, b64: Seq<char>)
    requires
        forall|i: int| 0 <= i < b64.len() ==> is_b64_char(#[trigger] b64[i]),
    ensures
        apc_contents(apcs_from(encode_utf8(kitty_frames(req, b64, 0)), 0)) == kitty_chunks(req, b64, 0),
{
    lemma_b64_plain(b64);
    lemma_frames_ascii(req, b64, 0);
    lemma_ascii_encoding(kitty_frames(req, b64, 0));
    lemma_frames_read_back(req, b64, 0);
}

/// The unfinished kitty APC at the end of `d`, kept until the rest arrives.
pub fn apc_tail(d: &[u8]) -> (r: Vec<u8>)
    ensures
        r@ == tail_from(d@, 0),
{
    let len = d.len();
    let mut i: usize = 0;
    while i < len
        invariant
            i <= len,
            len == d@.len(),
            tail_from(d@, i as nat) == tail_from(d@, 0),
        decreases len - i,
    {
        if len - i >= 3 && d[i] == 0x1b && d[i + 1] == 0x5f && d[i + 2] == 0x47 {
            match find_st(d, i + 3) {
                Some(j) => {
                    proof {
                        lemma_st_from_bounds(d@, (i + 3) as nat);
                    }
                    i = j + 2;
                },
                None => {
                    let t = vstd::slice::slice_to_vec(vstd::slice::slice_subrange(d, i, len));
                    assert(t@ == d@.skip(i as int));
                    return t;
                },
            }
        } else if len - i < 3 && d[i] == 0x1b && (len - i == 1 || d[i + 1] == 0x5f) {
            let t = vstd::slice::slice_to_vec(vstd::slice::slice_subrange(d, i, len));
            assert(t@ == d@.skip(i as int));
            assert(is_partial_marker(d@.skip(i as int))) by {
                assert(d@.skip(i as int) =~= apc_marker().take((len - i) as int));
            }
            return t;
        } else {
            proof {
                if len - i < 3 {
                    assert(!is_partial_marker(d@.skip(i as int))) by {
                        if is_partial_marker(d@.skip(i as int)) {
                            assert(d@.skip(i as int)[0] == apc_marker()[0]);
                            if len - i == 2 {
                                assert(d@.skip(i as int)[1] == apc_marker()[1]);
                            }
                        }
                    }
                }
            }
            i = i + 1;
        }
    }
    Vec::new()
}

// ── iTerm2 OSC 1337 receiver ───────────────────────────────────────────

/// `1337`, the OSC number of iTerm2's inline images.
pub open spec fn osc_1337() -> Seq<u8> {
    seq![0x31u8, 0x33u8, 0x33u8, 0x37u8]
}

/// OSC fields joined back with `;`.
pub open spec fn join_fields(fields: Seq<Seq<u8>>) -> Seq<u8>
    decreases fields.len(),
{
    if fields.len() == 0 {
        Seq::empty()
    } else if fields.len() == 1 {
        fields[0]
    } else {
        join_fields(fields.drop_last()) + seq![0x3bu8] + fields.last()
    }
}

pub open spec fn or_empty(v: Option<Seq<char>>) -> Seq<char> {
    match v {
        Some(s) => s,
        None => Seq::empty(),
    }
}

/// A `width=` / `height=` argument in cells: `N` or `Ncells`; anything
/// else (pixels, percent, `auto`, missing, 0) counts as one cell.
pub open spec fn cells_value(v: Seq<char>) -> u32 {
    let digits = if v.len() >= 5 && v.skip(v.len() - 5) == "cells"@ {
        v.take(v.len() - 5)
    } else {
        v
    };
    match parse_u32_spec(digits) {
        Some(n) => if n >= 1 {
            n
        } else {
            1
        },
        None => 1,
    }
}

/// The size in cells that the iTerm2 arguments `args` ask for, as
/// `(width, height)`: `None` unless they start `File=` and have `inline=1`
/// among their `;`-separated `key=value` pairs.
pub open spec fn iterm_sizes(args: Seq<char>) -> Option<(u32, u32)> {
    if args.len() < 5 || args.take(5) != "File="@ {
        None
    } else {
        let pairs = pairs_of(split_on(args.skip(5), ';'));
        if lookup(pairs, "inline"@) != Some("1"@) {
            None
        } else {
            Some(
                (
                    cells_value(or_empty(lookup(pairs, "width"@))),
                    cells_value(or_empty(lookup(pairs, "height"@))),
                ),
            )
        }
    }
}

/// An iTerm2 inline image in the fields of an OSC string:
/// `1337;File=<key=value;…>:<base64>` with `inline=1`. Gives the cell width,
/// cell height and the base64 text.
pub open spec fn iterm_request(fields: Seq<Seq<u8>>) -> Option<(u32, u32, Seq<u8>)> {
    if fields.len() < 2 || fields[0] != osc_1337() {
        None
    } else {
        let body = join_fields(fields.skip(1));
        match byte_index(body, 0x3au8) {
            None => None,
            Some(k) => {
                match iterm_sizes(utf8_lossy(body.take(k as int))) {
                    None => None,
                    Some((w, h)) => Some((w, h, body.skip(k + 1int))),
                }
            },
        }
    }
}

/// The store after an OSC string with `fields` arrives while the cursor is
/// at `(row, col)`: an iTerm2 inline image whose base64 decodes is stored
/// under the next free id and placed there; anything else changes nothing.
pub open spec fn iterm_step(st: ImagesView, fields: Seq<Seq<u8>>, row: usize, col: usize) -> ImagesView {
    match iterm_request(fields) {
        None => st,
        Some((cw, ch, b64)) => match base64_decoded(b64) {
            None => st,
            Some(data) => ImagesView {
                images: st.images.insert(st.next_id, data),
                placements: st.placements.push(
                    Placement {
                        image_id: st.next_id,
                        row,
                        col,
                        pixel_w: 0,
                        pixel_h: 0,
                        cells_w: cw,
                        cells_h: ch,
                    },
                ),
                next_id: next_after(st.next_id),
            },
        },
    }
}

pub open spec fn fields_view(fields: Seq<Vec<u8>>) -> Seq<Seq<u8>> {
    fields.map_values(|f: Vec<u8>| f@)
}

fn bytes_eq(a: &[u8], b: &[u8]) -> (r: bool)
    ensures
        r == (a@ == b@),
{
    if a.len() != b.len() {
        return false;
    }
    let mut i: usize = 0;
    while i < a.len()
        invariant
            i <= a@.len(),
            a@.len() == b@.len(),
            forall|j: int| 0 <= j < i ==> a@[j] == b@[j],
        decreases a.len() - i,
    {
        if a[i] != b[i] {
            return false;
        }
        i = i + 1;
    }
    assert(a@ =~= b@);
    true
}

/// The fields after the first, joined back with `;`.
fn join_rest(fields: &Vec<Vec<u8>>) -> (r: Vec<u8>)
    requires
        fields@.len() >= 1,
    ensures
        r@ == join_fields(fields_view(fields@).skip(1)),
{
    let ghost fv = fields_view(fields@);
    let mut out: Vec<u8> = Vec::new();
    let mut i: usize = 1;
    while i < fields.len()
        invariant
            1 <= i <= fields@.len(),
            fv == fields_view(fields@),
            out@ == join_fields(fv.subrange(1, i as int)),
        decreases fields.len() - i,
    {
        assert(fv.subrange(1, i + 1).drop_last() == fv.subrange(1, i as int));
        assert(fv.subrange(1, i + 1).last() == fields@[i as int]@);
        if i > 1 {
            out.push(0x3b);
        } else {
            assert(fv.subrange(1, 2)[0] == fields@[1]@);
        }
        let f = &fields[i];
        let mut k: usize = 0;
        let ghost base = out@;
        while k < f.len()
            invariant
                k <= f@.len(),
                out@ == base + f@.take(k as int),
            decreases f.len() - k,
        {
            out.push(f[k]);
            k = k + 1;
            assert(out@ =~= base + f@.take(k as int));
        }
        assert(f@.take(f@.len() as int) == f@);
        i = i + 1;
    }
    assert(fv.subrange(1, fields@.len() as int) == fv.skip(1));
    out
}

/// See [`cells_value`].
fn parse_cells(v: &[char]) -> (n: u32)
    ensures
        n == cells_value(v@),
{
    let len = v.len();
    let digits = if len >= 5 && chars_eq(vstd::slice::slice_subrange(v, len - 5, len), "cells") {
        vstd::slice::slice_subrange(v, 0, len - 5)
    } else {
        v
    };
    assert(len >= 5 ==> v@.subrange(len - 5, len as int) == v@.skip(len - 5));
    match parse_u32(digits) {
        Some(n) => if n >= 1 {
            n
        } else {
            1
        },
        None => 1,
    }
}

/// The value of the first pair whose key is `key`, or empty.
fn pair_value(pairs: &Vec<(Vec<char>, Vec<char>)>, key: &str) -> (r: Vec<char>)
    ensures
        r@ == or_empty(lookup(pairs_view(pairs@), key@)),
        (r@ == "1"@) == (lookup(pairs_view(pairs@), key@) == Some("1"@)),
{
    let ghost pv = pairs_view(pairs@);
    assert(pv.skip(0) == pv);
    let mut i: usize = 0;
    while i < pairs.len()
        invariant
            i <= pairs@.len(),
            pv == pairs_view(pairs@),
            lookup(pv, key@) == lookup(pv.skip(i as int), key@),
        decreases pairs.len() - i,
    {
        assert(pv.skip(i as int).drop_first() == pv.skip(i + 1));
        if chars_eq(pairs[i].0.as_slice(), key) {
            return vstd::slice::slice_to_vec(pairs[i].1.as_slice());
        }
        i = i + 1;
    }
    let v: Vec<char> = Vec::new();
    proof {
        reveal_strlit("1");
        assert("1"@.len() == 1);
        assert(v@ != "1"@);
    }
    v
}

/// The `key=value` pairs of `;`-separated iTerm2 arguments.
fn parse_args(args: &[char]) -> (pairs: Vec<(Vec<char>, Vec<char>)>)
    ensures
        pairs_view(pairs@) == pairs_of(split_on(args@, ';')),
{
    let pieces = split_chars(args, ';');
    let ghost pv = pieces@.map_values(|p: Vec<char>| p@);
    let mut pairs: Vec<(Vec<char>, Vec<char>)> = Vec::new();
    let mut i: usize = 0;
    while i < pieces.len()
        invariant
            i <= pieces@.len(),
            pv == pieces@.map_values(|p: Vec<char>| p@),
            pairs_view(pairs@) == pairs_of(pv.take(i as int)),
        decreases pieces.len() - i,
    {
        let p = split_pair(pieces[i].as_slice());
        assert(pv.take(i + 1).drop_last() == pv.take(i as int));
        assert(pv.take(i + 1).last() == pieces@[i as int]@);
        let ghost before = pairs@;
        if p.0.len() > 0 {
            pairs.push(p);
            assert(pairs_view(pairs@) =~= pairs_view(before) + seq![pair_view(p)]);
        } else {
            assert(pairs_of(pv.take(i + 1)) =~= pairs_of(pv.take(i as int)));
        }
        i = i + 1;
    }
    assert(pv.take(pieces@.len() as int) == pv);
    pairs
}

/// Recognise an iTerm2 inline image (see [`iterm_request`]).
fn iterm_args(fields: &Vec<Vec<u8>>) -> (r: Option<(u32, u32, Vec<u8>)>)
    ensures
        match r {
            Some((cw, ch, b64)) => iterm_request(fields_view(fields@)) == Some((cw, ch, b64@)),
            None => iterm_request(fields_view(fields@)) is None,
        },
{
    let ghost fv = fields_view(fields@);
    let tag: [u8; 4] = [0x31u8, 0x33u8, 0x33u8, 0x37u8];
    assert(tag@ == osc_1337());
    if fields.len() < 2 || !bytes_eq(fields[0].as_slice(), &tag) {
        return None;
    }
    let body = join_rest(fields);
    let k = match find_byte(body.as_slice(), 0x3a) {
        Some(k) => k,
        None => {
            return None;
        },
    };
    let args = lossy_string(vstd::slice::slice_subrange(body.as_slice(), 0, k));
    assert(body@.subrange(0, k as int) == body@.take(k as int));
    let args = str_chars(args.as_str());
    if args.len() < 5 || !chars_eq(vstd::slice::slice_subrange(args.as_slice(), 0, 5), "File=") {
        assert(args.len() >= 5 ==> args@.subrange(0, 5) == args@.take(5));
        return None;
    }
    assert(args@.subrange(0, 5) == args@.take(5));
    let rest = vstd::slice::slice_subrange(args.as_slice(), 5, args.len());
    assert(rest@ == args@.skip(5));
    let pairs = parse_args(rest);
    let inline = pair_value(&pairs, "inline");
    if !chars_eq(inline.as_slice(), "1") {
        return None;
    }
    let w = pair_value(&pairs, "width");
    let h = pair_value(&pairs, "height");
    let n = body.len();
    let b64 = vstd::slice::slice_to_vec(vstd::slice::slice_subrange(body.as_slice(), k + 1, n));
    assert(b64@ == body@.skip(k + 1));
    Some((parse_cells(w.as_slice()), parse_cells(h.as_slice()), b64))
}

/// Handle an OSC string: an iTerm2 inline image (`OSC 1337;File=…`) is
/// decoded, stored and placed at (`cursor_row`, `cursor_col`); anything
/// else is ignored.
pub fn process_osc(
    fields: &Vec<Vec<u8>>,
    cursor_row: usize,
    cursor_col: usize,
    store: &mut InlineImageStore,
)
    ensures
        final(store).model() == iterm_step(
            old(store).model(),
            fields_view(fields@),
            cursor_row,
            cursor_col,
        ),
{
    let (cells_w, cells_h, b64) = match iterm_args(fields) {
        Some(r) => r,
        None => {
            return;
        },
    };
    let data = match b64_decode(b64.as_slice()) {
        Some(d) => d,
        None => {
            return;
        },
    };
    let id = store.take_id();
    store.insert(InlineImage { id, data });
    store.place(
        Placement {
            image_id: id,
            row: cursor_row,
            col: cursor_col,
            pixel_w: 0,
            pixel_h: 0,
            cells_w,
            cells_h,
        },
    );
}

} // verus!
