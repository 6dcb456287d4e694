//! What the image encoders write, the receivers read back: the iTerm2
//! arguments carry the size in cells, and the kitty control data carries
//! the display request, the pixel and cell sizes and the chunking.

use vstd::prelude::*;
use crate::graphics::{
    control_pair, pairs_of, lookup, cells_value, iterm_sizes, iterm_arguments, iterm_encoding,
    iterm_name, base64_of, kitty_control, ctrl_u32, GraphicsRequest, KITTY_CHUNK,
};
use crate::text::{ascii_lower, split_on, decimal, parse_u32_spec};

verus! {

#[verifier::spinoff_prover]
#[verifier::rlimit(100)]
proof fn lemma_pairs_of_concat(x: Seq<Seq<char>>, y: Seq<Seq<char>>)
    ensures
        pairs_of(x + y) == pairs_of(x) + pairs_of(y),
    decreases y.len(),
{
    if y.len() == 0 {
        assert(x + y =~= x);
        assert(pairs_of(x) + pairs_of(y) =~= pairs_of(x));
    } else {
        lemma_pairs_of_concat(x, y.drop_last());
        assert((x + y).drop_last() =~= x + y.drop_last());
        assert((x + y).last() == y.last());
    }
}

#[verifier::spinoff_prover]
#[verifier::rlimit(100)]
proof fn lemma_lookup_concat(a: Seq<(Seq<char>, Seq<char>)>, b: Seq<(Seq<char>, Seq<char>)>, key: Seq<char>)
    ensures
        lookup(a + b, key) == (if lookup(a, key) is Some {
            lookup(a, key)
        } else {
            lookup(b, key)
        }),
    decreases a.len(),
{
    if a.len() == 0 {
        assert(a + b =~= b);
    } else {
        lemma_lookup_concat(a.drop_first(), b, key);
        assert((a + b).drop_first() =~= a.drop_first() + b);
        assert((a + b)[0] == a[0]);
    }
}

/// `key=<digits>cells` as a control pair: the key, and the value as written.
#[verifier::spinoff_prover]
#[verifier::rlimit(100)]
proof fn lemma_cells_pair(key: Seq<char>, n: nat)
    requires
        key.len() > 0,
        !crate::text::is_ws(key[0]),
        !crate::text::is_ws(key.last()),
        forall|i: int| 0 <= i < key.len() ==> key[i] != '=' && key[i] != ';' && 'a' <= #[trigger] key[i] <= 'z',
    ensures
        control_pair(key + "="@ + decimal(n) + "cells"@) == (key, decimal(n) + "cells"@),
        forall|i: int| 0 <= i < (key + "="@ + decimal(n) + "cells"@).len() ==>
            #[trigger] (key + "="@ + decimal(n) + "cells"@)[i] != ';',
{
    reveal_strlit("=");
    reveal_strlit("cells");
    crate::text::lemma_decimal_digits(n);
    let d = decimal(n);
    let piece = key + "="@ + d + "cells"@;
    assert forall|i: int| 0 <= i < piece.len() implies #[trigger] piece[i] != ';' by {
        if i >= key.len() + 1 && i < key.len() + 1 + d.len() {
            assert(piece[i] == d[i - key.len() - 1]);
            assert(crate::text::is_digit(d[i - key.len() - 1]));
        }
    }
    crate::text::lemma_index_of_at(piece, '=', key.len());
    assert(piece.take(key.len() as int) =~= key);
    let v = d + "cells"@;
    assert(piece.skip(key.len() + 1int) =~= v);
    crate::text::lemma_trim_plain(key);
    assert(crate::text::is_digit(d[0]));
    assert(v[0] == d[0]);
    assert(v.last() == 's');
    crate::text::lemma_trim_plain(v);
    assert(ascii_lower(key) =~= key);
}

/// Where the receiver reads `<digits>cells` it reads the number, 0 as one cell.
#[verifier::spinoff_prover]
#[verifier::rlimit(100)]
proof fn lemma_cells_value(n: nat)
    requires
        n <= u32::MAX,
    ensures
        cells_value(decimal(n) + "cells"@) == (if n >= 1 { n as u32 } else { 1u32 }),
{
    reveal_strlit("cells");
    crate::text::lemma_decimal_digits(n);
    let d = decimal(n);
    let v = d + "cells"@;
    assert(v.skip(v.len() - 5) =~= "cells"@);
    assert(v.take(v.len() - 5) =~= d);
    assert(crate::text::is_digit(d[0]));
}

/// The iTerm2 arguments: `File=`, then `inline=1`, the width piece, the
/// height piece and the rest, separated by `;`.
#[verifier::spinoff_prover]
#[verifier::rlimit(100)]
proof fn lemma_iterm_args_shape(req: GraphicsRequest)
    ensures
        iterm_arguments(req).len() >= 5,
        iterm_arguments(req).take(5) == "File="@,
        iterm_arguments(req).skip(5) == "inline=1"@ + seq![';'] + (("width"@ + "="@ + decimal(req.cells_w as nat)
            + "cells"@) + seq![';'] + (("height"@ + "="@ + decimal(req.cells_h as nat) + "cells"@) + seq![';']
            + ("size="@ + decimal(req.bytes@.len()) + ";name="@ + base64_of(iterm_name())))),
{
    reveal_strlit("File=inline=1;width=");
    reveal_strlit("cells;height=");
    reveal_strlit("cells;size=");
    reveal_strlit(";name=");
    reveal_strlit("File=");
    reveal_strlit("inline=1");
    reveal_strlit("width");
    reveal_strlit("height");
    reveal_strlit("=");
    reveal_strlit("cells");
    reveal_strlit("size=");
    let args = iterm_arguments(req);
    assert(args.take(5) =~= "File="@);
    assert(args.skip(5) =~= "inline=1"@ + seq![';'] + (("width"@ + "="@ + decimal(req.cells_w as nat)
        + "cells"@) + seq![';'] + (("height"@ + "="@ + decimal(req.cells_h as nat) + "cells"@) + seq![';']
        + ("size="@ + decimal(req.bytes@.len()) + ";name="@ + base64_of(iterm_name())))));
}

/// Splitting three `;`-free pieces and a tail joined by `;`.
#[verifier::spinoff_prover]
#[verifier::rlimit(100)]
proof fn lemma_split_three(p1: Seq<char>, p2: Seq<char>, p3: Seq<char>, tail: Seq<char>)
    requires
        forall|i: int| 0 <= i < p1.len() ==> p1[i] != ';',
        forall|i: int| 0 <= i < p2.len() ==> p2[i] != ';',
        forall|i: int| 0 <= i < p3.len() ==> p3[i] != ';',
    ensures
        split_on(p1 + seq![';'] + (p2 + seq![';'] + (p3 + seq![';'] + tail)), ';') == seq![p1, p2, p3]
            + split_on(tail, ';'),
{
    crate::text::lemma_split_on_concat(p1, p2 + seq![';'] + (p3 + seq![';'] + tail), ';');
    crate::text::lemma_split_on_concat(p2, p3 + seq![';'] + tail, ';');
    crate::text::lemma_split_on_concat(p3, tail, ';');
    crate::text::lemma_split_on_whole(p1, ';');
    crate::text::lemma_split_on_whole(p2, ';');
    crate::text::lemma_split_on_whole(p3, ';');
    assert(seq![p1] + (seq![p2] + (seq![p3] + split_on(tail, ';'))) =~= seq![p1, p2, p3] + split_on(tail, ';'));
}

/// The width and height pieces as control pairs, neither holding `;`.
#[verifier::spinoff_prover]
#[verifier::rlimit(100)]
proof fn lemma_size_pairs(w: nat, h: nat)
    ensures
        control_pair("width"@ + "="@ + decimal(w) + "cells"@) == ("width"@, decimal(w) + "cells"@),
        control_pair("height"@ + "="@ + decimal(h) + "cells"@) == ("height"@, decimal(h) + "cells"@),
        forall|i: int| 0 <= i < ("width"@ + "="@ + decimal(w) + "cells"@).len() ==>
            #[trigger] ("width"@ + "="@ + decimal(w) + "cells"@)[i] != ';',
        forall|i: int| 0 <= i < ("height"@ + "="@ + decimal(h) + "cells"@).len() ==>
            #[trigger] ("height"@ + "="@ + decimal(h) + "cells"@)[i] != ';',
        "width"@.len() > 0,
        "height"@.len() > 0,
{
    reveal_strlit("width");
    reveal_strlit("height");
    lemma_cells_pair("width"@, w);
    lemma_cells_pair("height"@, h);
}

/// `inline=1` holds no `;`.
#[verifier::spinoff_prover]
#[verifier::rlimit(100)]
proof fn lemma_inline_piece()
    ensures
        forall|i: int| 0 <= i < "inline=1"@.len() ==> #[trigger] "inline=1"@[i] != ';',
{
    reveal_strlit("inline=1");
}

/// The first three pieces of the iTerm2 arguments after `File=`.
#[verifier::spinoff_prover]
#[verifier::rlimit(100)]
proof fn lemma_iterm_pieces(req: GraphicsRequest)
    ensures
        iterm_arguments(req).len() >= 5,
        iterm_arguments(req).take(5) == "File="@,
        split_on(iterm_arguments(req).skip(5), ';') == seq![
            "inline=1"@,
            "width"@ + "="@ + decimal(req.cells_w as nat) + "cells"@,
            "height"@ + "="@ + decimal(req.cells_h as nat) + "cells"@,
        ] + split_on(
            "size="@ + decimal(req.bytes@.len()) + ";name="@ + base64_of(iterm_name()),
            ';',
        ),
{
    let p1 = "inline=1"@;
    let p2 = "width"@ + "="@ + decimal(req.cells_w as nat) + "cells"@;
    let p3 = "height"@ + "="@ + decimal(req.cells_h as nat) + "cells"@;
    let tail = "size="@ + decimal(req.bytes@.len()) + ";name="@ + base64_of(iterm_name());
    lemma_iterm_args_shape(req);
    assert(iterm_arguments(req).skip(5) == p1 + seq![';'] + (p2 + seq![';'] + (p3 + seq![';'] + tail)));
    lemma_inline_piece();
    lemma_size_pairs(req.cells_w as nat, req.cells_h as nat);
    lemma_split_three(p1, p2, p3, tail);
}

/// `inline=1` as a control pair.
#[verifier::spinoff_prover]
#[verifier::rlimit(100)]
proof fn lemma_inline_pair()
    ensures
        control_pair("inline=1"@) == ("inline"@, "1"@),
{
    reveal_strlit("inline=1");
    reveal_strlit("inline");
    reveal_strlit("1");
    let p1 = "inline=1"@;
    crate::text::lemma_index_of_at(p1, '=', 6);
    assert(p1.take(6) =~= "inline"@);
    assert(p1.skip(7) =~= "1"@);
    crate::text::lemma_trim_plain("inline"@);
    crate::text::lemma_trim_plain("1"@);
    assert(ascii_lower("inline"@) =~= "inline"@);
}

/// Three pieces with non-empty keys give three pairs.
#[verifier::spinoff_prover]
#[verifier::rlimit(100)]
proof fn lemma_pairs_of_three(p1: Seq<char>, p2: Seq<char>, p3: Seq<char>)
    requires
        control_pair(p1).0.len() > 0,
        control_pair(p2).0.len() > 0,
        control_pair(p3).0.len() > 0,
    ensures
        pairs_of(seq![p1, p2, p3]) == seq![control_pair(p1), control_pair(p2), control_pair(p3)],
{
    assert(seq![p1].drop_last() =~= Seq::<Seq<char>>::empty());
    assert(seq![p1].last() == p1);
    assert(pairs_of(Seq::<Seq<char>>::empty()) == Seq::<(Seq<char>, Seq<char>)>::empty());
    assert(pairs_of(seq![p1]) =~= seq![control_pair(p1)]);
    assert(seq![p1, p2].last() == p2);
    assert(seq![p1, p2, p3].last() == p3);
    assert(seq![p1, p2].drop_last() =~= seq![p1]);
    assert(pairs_of(seq![p1, p2]) =~= seq![control_pair(p1), control_pair(p2)]);
    assert(seq![p1, p2, p3].drop_last() =~= seq![p1, p2]);
    assert(pairs_of(seq![p1, p2, p3]) =~= seq![control_pair(p1), control_pair(p2), control_pair(p3)]);
}

/// The pairs of those three pieces.
#[verifier::spinoff_prover]
#[verifier::rlimit(100)]
proof fn lemma_iterm_first_pairs(w: nat, h: nat)
    ensures
        pairs_of(seq!["inline=1"@, "width"@ + "="@ + decimal(w) + "cells"@, "height"@ + "="@ + decimal(h) + "cells"@])
            == seq![("inline"@, "1"@), ("width"@, decimal(w) + "cells"@), ("height"@, decimal(h) + "cells"@)],
{
    reveal_strlit("inline");
    lemma_inline_pair();
    lemma_size_pairs(w, h);
    lemma_pairs_of_three(
        "inline=1"@,
        "width"@ + "="@ + decimal(w) + "cells"@,
        "height"@ + "="@ + decimal(h) + "cells"@,
    );
}

/// What the receiver looks up in pairs that start with those three.
#[verifier::spinoff_prover]
#[verifier::rlimit(100)]
proof fn lemma_iterm_lookups(w: nat, h: nat, rest: Seq<(Seq<char>, Seq<char>)>)
    ensures
        ({
            let pairs = seq![("inline"@, "1"@), ("width"@, decimal(w) + "cells"@), ("height"@, decimal(h) + "cells"@)]
                + rest;
            &&& lookup(pairs, "inline"@) == Some("1"@)
            &&& lookup(pairs, "width"@) == Some(decimal(w) + "cells"@)
            &&& lookup(pairs, "height"@) == Some(decimal(h) + "cells"@)
        }),
{
    reveal_strlit("inline");
    reveal_strlit("width");
    reveal_strlit("height");
    let c1 = ("inline"@, "1"@);
    let c2 = ("width"@, decimal(w) + "cells"@);
    let c3 = ("height"@, decimal(h) + "cells"@);
    let first = seq![c1, c2, c3];
    lemma_lookup_concat(first, rest, "inline"@);
    lemma_lookup_concat(first, rest, "width"@);
    lemma_lookup_concat(first, rest, "height"@);
    assert("inline"@.len() != "width"@.len());
    assert("inline"@[0] != "height"@[0]);
    assert("width"@.len() != "height"@.len());
    assert(first.drop_first() =~= seq![c2, c3]);
    assert(seq![c2, c3].drop_first() =~= seq![c3]);
    assert(lookup(seq![c3], "height"@) == Some(c3.1));
    assert(lookup(seq![c2, c3], "width"@) == Some(c2.1));
    assert(lookup(seq![c2, c3], "height"@) == Some(c3.1));
    assert(lookup(first, "width"@) == Some(c2.1));
    assert(lookup(first, "height"@) == Some(c3.1));
}

/// What the iTerm2 encoder writes, the crate's own OSC 1337 receiver reads
/// back: the encoding is `ESC ] 1337 ;`, the arguments, `:`, the image's
/// base64 and BEL, and reading the arguments gives `cells_w` as the width
/// and `cells_h` as the height, in cells (a size of 0, like a missing one,
/// read as one cell).
#[verifier::spinoff_prover]
#[verifier::rlimit(100)]
pub proof fn law_iterm_sizes_read_back(req: GraphicsRequest)
    ensures
        iterm_encoding(req) == "\x1b]1337;"@ + iterm_arguments(req) + ":"@ + base64_of(req.bytes@) + "\x07"@,
        iterm_sizes(iterm_arguments(req)) == Some(
            (
                if req.cells_w >= 1 { req.cells_w } else { 1u32 },
                if req.cells_h >= 1 { req.cells_h } else { 1u32 },
            ),
        ),
{
    let w = req.cells_w as nat;
    let h = req.cells_h as nat;
    let tail = "size="@ + decimal(req.bytes@.len()) + ";name="@ + base64_of(iterm_name());
    let three = seq![
        "inline=1"@,
        "width"@ + "="@ + decimal(w) + "cells"@,
        "height"@ + "="@ + decimal(h) + "cells"@,
    ];
    lemma_iterm_pieces(req);
    lemma_pairs_of_concat(three, split_on(tail, ';'));
    lemma_iterm_first_pairs(w, h);
    lemma_iterm_lookups(w, h, pairs_of(split_on(tail, ';')));
    lemma_cells_value(w);
    lemma_cells_value(h);
}

/// `pieces` joined with `sep` between them.
pub open spec fn joined(pieces: Seq<Seq<char>>, sep: char) -> Seq<char>
    decreases pieces.len(),
{
    if pieces.len() == 0 {
        Seq::empty()
    } else if pieces.len() == 1 {
        pieces[0]
    } else {
        joined(pieces.drop_last(), sep) + seq![sep] + pieces.last()
    }
}

/// `p` does not hold `c`.
pub open spec fn lacks(p: Seq<char>, c: char) -> bool {
    forall|j: int| 0 <= j < p.len() ==> p[j] != c
}

/// Splitting pieces joined with a separator none of them holds gives the
/// pieces back.
#[verifier::spinoff_prover]
#[verifier::rlimit(100)]
proof fn lemma_split_joined(pieces: Seq<Seq<char>>, sep: char)
    requires
        pieces.len() >= 1,
        forall|i: int| 0 <= i < pieces.len() ==> lacks(#[trigger] pieces[i], sep),
    ensures
        split_on(joined(pieces, sep), sep) == pieces,
    decreases pieces.len(),
{
    let last = pieces.last();
    assert(lacks(pieces[pieces.len() - 1], sep));
    crate::text::lemma_split_on_whole(last, sep);
    if pieces.len() == 1 {
        assert(seq![pieces[0]] =~= pieces);
    } else {
        let dl = pieces.drop_last();
        assert forall|i: int| 0 <= i < dl.len() implies lacks(#[trigger] dl[i], sep) by {
            assert(dl[i] == pieces[i]);
        }
        lemma_split_joined(dl, sep);
        crate::text::lemma_split_on_concat(joined(dl, sep), last, sep);
        assert(dl + seq![last] =~= pieces);
    }
}

/// Pieces whose keys are all non-empty give one pair each.
#[verifier::spinoff_prover]
#[verifier::rlimit(100)]
proof fn lemma_pairs_of_each(pieces: Seq<Seq<char>>)
    requires
        forall|i: int| 0 <= i < pieces.len() ==> (#[trigger] control_pair(pieces[i])).0.len() > 0,
    ensures
        pairs_of(pieces) == pieces.map_values(|p: Seq<char>| control_pair(p)),
    decreases pieces.len(),
{
    if pieces.len() > 0 {
        let dl = pieces.drop_last();
        assert forall|i: int| 0 <= i < dl.len() implies (#[trigger] control_pair(dl[i])).0.len() > 0 by {
            assert(dl[i] == pieces[i]);
        }
        lemma_pairs_of_each(dl);
        assert(control_pair(pieces[pieces.len() - 1]).0.len() > 0);
        assert(pieces.map_values(|p: Seq<char>| control_pair(p)) =~= dl.map_values(|p: Seq<char>| control_pair(p))
            + seq![control_pair(pieces.last())]);
    } else {
        assert(pieces.map_values(|p: Seq<char>| control_pair(p)) =~= Seq::<(Seq<char>, Seq<char>)>::empty());
    }
}

/// Looking up a key finds its first pair.
#[verifier::spinoff_prover]
#[verifier::rlimit(100)]
proof fn lemma_lookup_at(pairs: Seq<(Seq<char>, Seq<char>)>, key: Seq<char>, k: int)
    requires
        0 <= k < pairs.len(),
        pairs[k].0 == key,
        forall|j: int| 0 <= j < k ==> (#[trigger] pairs[j]).0 != key,
    ensures
        lookup(pairs, key) == Some(pairs[k].1),
    decreases k,
{
    if k > 0 {
        let t = pairs.drop_first();
        assert forall|j: int| 0 <= j < k - 1 implies (#[trigger] t[j]).0 != key by {
            assert(t[j] == pairs[j + 1]);
        }
        assert(pairs[0].0 != key);
        lemma_lookup_at(t, key, k - 1);
    }
}

/// Looking up a key no pair has finds nothing.
#[verifier::spinoff_prover]
#[verifier::rlimit(100)]
proof fn lemma_lookup_none(pairs: Seq<(Seq<char>, Seq<char>)>, key: Seq<char>)
    requires
        forall|j: int| 0 <= j < pairs.len() ==> (#[trigger] pairs[j]).0 != key,
    ensures
        lookup(pairs, key) is None,
    decreases pairs.len(),
{
    if pairs.len() > 0 {
        let t = pairs.drop_first();
        assert forall|j: int| 0 <= j < t.len() implies (#[trigger] t[j]).0 != key by {
            assert(t[j] == pairs[j + 1]);
        }
        assert(pairs[0].0 != key);
        lemma_lookup_none(t, key);
    }
}

/// `key=value` with a lower-case key and a value without surrounding white
/// space or commas is the pair `(key, value)`.
#[verifier::spinoff_prover]
#[verifier::rlimit(100)]
proof fn lemma_key_value(key: Seq<char>, val: Seq<char>)
    requires
        key.len() > 0,
        forall|i: int| 0 <= i < key.len() ==> 'a' <= #[trigger] key[i] <= 'z',
        val.len() > 0,
        !crate::text::is_ws(val[0]),
        !crate::text::is_ws(val.last()),
    ensures
        control_pair(key + "="@ + val) == (key, val),
{
    reveal_strlit("=");
    let piece = key + "="@ + val;
    crate::text::lemma_index_of_at(piece, '=', key.len());
    assert(piece.take(key.len() as int) =~= key);
    assert(piece.skip(key.len() + 1int) =~= val);
    crate::text::lemma_trim_plain(key);
    crate::text::lemma_trim_plain(val);
    assert(ascii_lower(key) =~= key);
}

/// `decimal(n)` reads back as `n`.
#[verifier::spinoff_prover]
#[verifier::rlimit(100)]
proof fn lemma_parse_decimal(n: nat)
    requires
        n <= u32::MAX,
    ensures
        parse_u32_spec(decimal(n)) == Some(n as u32),
        decimal(n).len() > 0,
        crate::text::is_digit(decimal(n)[0]),
        crate::text::is_digit(decimal(n).last()),
{
    crate::text::lemma_decimal_digits(n);
}

/// `key=value`.
#[verifier::opaque]
pub open spec fn key_value(key: Seq<char>, val: Seq<char>) -> Seq<char> {
    key + "="@ + val
}

/// The `key=value` pieces of the first kitty frame's control data.
pub open spec fn first_control_pieces(req: GraphicsRequest, more: bool) -> Seq<Seq<char>> {
    seq![
        key_value("a"@, "t"@),
        key_value("t"@, "d"@),
        key_value("f"@, "100"@),
        key_value("s"@, decimal(req.pixel_w as nat)),
        key_value("v"@, decimal(req.pixel_h as nat)),
        key_value("c"@, decimal(req.cells_w as nat)),
        key_value("r"@, decimal(req.cells_h as nat)),
    ] + if more {
        seq![key_value("m"@, "1"@)]
    } else {
        Seq::empty()
    }
}

#[verifier::spinoff_prover]
#[verifier::rlimit(100)]
proof fn lemma_first_control_shape(req: GraphicsRequest, start: nat, len: nat)
    requires
        start == 0,
    ensures
        kitty_control(req, start, len) == joined(first_control_pieces(req, start + KITTY_CHUNK < len), ','),
{
    reveal(key_value);
    reveal_strlit("a=t,t=d,f=100,s=");
    reveal_strlit(",v=");
    reveal_strlit(",c=");
    reveal_strlit(",r=");
    reveal_strlit(",m=1");
    reveal_strlit("a");
    reveal_strlit("t");
    reveal_strlit("d");
    reveal_strlit("f");
    reveal_strlit("100");
    reveal_strlit("s");
    reveal_strlit("v");
    reveal_strlit("c");
    reveal_strlit("r");
    reveal_strlit("m");
    reveal_strlit("1");
    reveal_strlit("=");
    let more = start + KITTY_CHUNK < len;
    let ps = first_control_pieces(req, more);
    reveal_with_fuel(joined, 9);
    assert(ps.drop_last().drop_last().drop_last().drop_last().drop_last().drop_last().len() >= 1);
    assert(kitty_control(req, start, len) =~= joined(ps, ','));
}

/// A `key=value` piece with a one-letter key and a value of digits or of
/// lower-case letters.
#[verifier::spinoff_prover]
#[verifier::rlimit(100)]
proof fn lemma_short_piece(key: Seq<char>, val: Seq<char>)
    requires
        key.len() == 1,
        'a' <= key[0] <= 'z',
        val.len() > 0,
        forall|i: int| 0 <= i < val.len() ==> #[trigger] crate::text::is_digit(val[i]) || ('a' <= val[i] <= 'z'),
    ensures
        control_pair(key_value(key, val)) == (key, val),
        lacks(key_value(key, val), ','),
{
    reveal(key_value);
    reveal_strlit("=");
    assert(crate::text::is_digit(val[0]) || ('a' <= val[0] <= 'z'));
    assert(crate::text::is_digit(val[val.len() - 1]) || ('a' <= val[val.len() - 1] <= 'z'));
    lemma_key_value(key, val);
    assert forall|j: int| 0 <= j < key_value(key, val).len() implies key_value(key, val)[j] != ',' by {
        if j >= 2 {
            assert(key_value(key, val)[j] == val[j - 2]);
            assert(crate::text::is_digit(val[j - 2]) || ('a' <= val[j - 2] <= 'z'));
        }
    }
}

/// A number as a piece value.
#[verifier::spinoff_prover]
#[verifier::rlimit(100)]
proof fn lemma_number_piece(key: Seq<char>, n: nat)
    requires
        key.len() == 1,
        'a' <= key[0] <= 'z',
    ensures
        control_pair(key_value(key, decimal(n))) == (key, decimal(n)),
        lacks(key_value(key, decimal(n)), ','),
{
    crate::text::lemma_decimal_digits(n);
    lemma_short_piece(key, decimal(n));
}

/// The seven pieces every first kitty frame has.
pub open spec fn base_control_pieces(req: GraphicsRequest) -> Seq<Seq<char>> {
    seq![
        key_value("a"@, "t"@),
        key_value("t"@, "d"@),
        key_value("f"@, "100"@),
        key_value("s"@, decimal(req.pixel_w as nat)),
        key_value("v"@, decimal(req.pixel_h as nat)),
        key_value("c"@, decimal(req.cells_w as nat)),
        key_value("r"@, decimal(req.cells_h as nat)),
    ]
}

/// The pairs those seven pieces give.
pub open spec fn base_control_pairs(req: GraphicsRequest) -> Seq<(Seq<char>, Seq<char>)> {
    seq![
        ("a"@, "t"@),
        ("t"@, "d"@),
        ("f"@, "100"@),
        ("s"@, decimal(req.pixel_w as nat)),
        ("v"@, decimal(req.pixel_h as nat)),
        ("c"@, decimal(req.cells_w as nat)),
        ("r"@, decimal(req.cells_h as nat)),
    ]
}

/// One more piece with a non-empty key adds its pair.
#[verifier::spinoff_prover]
#[verifier::rlimit(100)]
proof fn lemma_pairs_of_push(x: Seq<Seq<char>>, p: Seq<char>)
    requires
        control_pair(p).0.len() > 0,
    ensures
        pairs_of(x.push(p)) == pairs_of(x).push(control_pair(p)),
{
    assert(x.push(p).drop_last() =~= x);
    assert(x.push(p).last() == p);
    assert(pairs_of(x) + seq![control_pair(p)] =~= pairs_of(x).push(control_pair(p)));
}

/// A `key=value` piece with a one-letter key, as a pair.
#[verifier::spinoff_prover]
#[verifier::rlimit(100)]
proof fn lemma_short_pair(key: Seq<char>, val: Seq<char>)
    requires
        key.len() == 1,
        'a' <= key[0] <= 'z',
        val.len() > 0,
        crate::text::is_digit(val[0]) || ('a' <= val[0] <= 'z'),
        crate::text::is_digit(val.last()) || ('a' <= val.last() <= 'z'),
    ensures
        control_pair(key_value(key, val)) == (key, val),
{
    reveal(key_value);
    lemma_key_value(key, val);
}

/// A `key=<number>` piece, as a pair.
#[verifier::spinoff_prover]
#[verifier::rlimit(100)]
proof fn lemma_number_pair(key: Seq<char>, n: nat)
    requires
        key.len() == 1,
        'a' <= key[0] <= 'z',
    ensures
        control_pair(key_value(key, decimal(n))) == (key, decimal(n)),
{
    crate::text::lemma_decimal_digits(n);
    let d = decimal(n);
    assert(crate::text::is_digit(d[0]));
    assert(crate::text::is_digit(d[d.len() - 1]));
    lemma_short_pair(key, d);
}

/// Seven pieces with non-empty keys give their seven pairs.
#[verifier::spinoff_prover]
#[verifier::rlimit(100)]
proof fn lemma_pairs_of_seven(
    p0: Seq<char>,
    p1: Seq<char>,
    p2: Seq<char>,
    p3: Seq<char>,
    p4: Seq<char>,
    p5: Seq<char>,
    p6: Seq<char>,
)
    requires
        control_pair(p0).0.len() > 0,
        control_pair(p1).0.len() > 0,
        control_pair(p2).0.len() > 0,
        control_pair(p3).0.len() > 0,
        control_pair(p4).0.len() > 0,
        control_pair(p5).0.len() > 0,
        control_pair(p6).0.len() > 0,
    ensures
        pairs_of(seq![p0, p1, p2, p3, p4, p5, p6]) == seq![
            control_pair(p0),
            control_pair(p1),
            control_pair(p2),
            control_pair(p3),
            control_pair(p4),
            control_pair(p5),
            control_pair(p6),
        ],
{
    let x0 = Seq::<Seq<char>>::empty();
    let x1 = x0.push(p0);
    let x2 = x1.push(p1);
    let x3 = x2.push(p2);
    let x4 = x3.push(p3);
    let x5 = x4.push(p4);
    let x6 = x5.push(p5);
    let x7 = x6.push(p6);
    assert(pairs_of(x0) == Seq::<(Seq<char>, Seq<char>)>::empty());
    lemma_pairs_of_push(x0, p0);
    lemma_pairs_of_push(x1, p1);
    lemma_pairs_of_push(x2, p2);
    lemma_pairs_of_push(x3, p3);
    lemma_pairs_of_push(x4, p4);
    lemma_pairs_of_push(x5, p5);
    lemma_pairs_of_push(x6, p6);
    assert(seq![p0, p1, p2, p3, p4, p5, p6] =~= x7);
    assert(pairs_of(x7) =~= seq![
        control_pair(p0),
        control_pair(p1),
        control_pair(p2),
        control_pair(p3),
        control_pair(p4),
        control_pair(p5),
        control_pair(p6),
    ]);
}

#[verifier::spinoff_prover]
#[verifier::rlimit(100)]
proof fn lemma_base_control_pairs(req: GraphicsRequest)
    ensures
        pairs_of(base_control_pieces(req)) == base_control_pairs(req),
        forall|i: int| 0 <= i < base_control_pieces(req).len() ==> lacks(#[trigger] base_control_pieces(req)[i], ','),
{
    reveal_strlit("a");
    reveal_strlit("t");
    reveal_strlit("d");
    reveal_strlit("f");
    reveal_strlit("100");
    reveal_strlit("s");
    reveal_strlit("v");
    reveal_strlit("c");
    reveal_strlit("r");
    lemma_short_pair("a"@, "t"@);
    lemma_short_pair("t"@, "d"@);
    lemma_short_pair("f"@, "100"@);
    lemma_number_pair("s"@, req.pixel_w as nat);
    lemma_number_pair("v"@, req.pixel_h as nat);
    lemma_number_pair("c"@, req.cells_w as nat);
    lemma_number_pair("r"@, req.cells_h as nat);
    lemma_pairs_of_seven(
        key_value("a"@, "t"@),
        key_value("t"@, "d"@),
        key_value("f"@, "100"@),
        key_value("s"@, decimal(req.pixel_w as nat)),
        key_value("v"@, decimal(req.pixel_h as nat)),
        key_value("c"@, decimal(req.cells_w as nat)),
        key_value("r"@, decimal(req.cells_h as nat)),
    );
    lemma_base_control_lacks(req);
}

/// None of the seven pieces holds a comma.
#[verifier::spinoff_prover]
#[verifier::rlimit(100)]
proof fn lemma_base_control_lacks(req: GraphicsRequest)
    ensures
        forall|i: int| 0 <= i < base_control_pieces(req).len() ==> lacks(#[trigger] base_control_pieces(req)[i], ','),
{
    reveal_strlit("a");
    reveal_strlit("t");
    reveal_strlit("d");
    reveal_strlit("f");
    reveal_strlit("100");
    reveal_strlit("s");
    reveal_strlit("v");
    reveal_strlit("c");
    reveal_strlit("r");
    let b = base_control_pieces(req);
    assert forall|i: int| 0 <= i < b.len() implies lacks(#[trigger] b[i], ',') by {
        if i == 0 {
            lemma_short_piece("a"@, "t"@);
        } else if i == 1 {
            lemma_short_piece("t"@, "d"@);
        } else if i == 2 {
            lemma_short_piece("f"@, "100"@);
        } else if i == 3 {
            lemma_number_piece("s"@, req.pixel_w as nat);
        } else if i == 4 {
            lemma_number_piece("v"@, req.pixel_h as nat);
        } else if i == 5 {
            lemma_number_piece("c"@, req.cells_w as nat);
        } else {
            lemma_number_piece("r"@, req.cells_h as nat);
        }
    }
}

/// The pairs of the first kitty frame's control data.
#[verifier::spinoff_prover]
#[verifier::rlimit(100)]
proof fn lemma_first_control_pairs(req: GraphicsRequest, more: bool)
    ensures
        pairs_of(first_control_pieces(req, more)) == base_control_pairs(req) + if more {
            seq![("m"@, "1"@)]
        } else {
            Seq::empty()
        },
        forall|i: int| 0 <= i < first_control_pieces(req, more).len() ==> lacks(#[trigger] first_control_pieces(req, more)[i], ','),
{
    reveal_strlit("m");
    reveal_strlit("1");
    let b = base_control_pieces(req);
    let ps = first_control_pieces(req, more);
    lemma_base_control_pairs(req);
    if more {
        let m = seq![key_value("m"@, "1"@)];
        assert(ps =~= b + m);
        lemma_short_piece("m"@, "1"@);
        lemma_pairs_of_concat(b, m);
        lemma_pairs_of_push(Seq::<Seq<char>>::empty(), key_value("m"@, "1"@));
        assert(pairs_of(Seq::<Seq<char>>::empty()) == Seq::<(Seq<char>, Seq<char>)>::empty());
        assert(Seq::<Seq<char>>::empty().push(key_value("m"@, "1"@)) =~= m);
        assert(pairs_of(m) =~= seq![("m"@, "1"@)]);
        assert forall|i: int| 0 <= i < ps.len() implies lacks(#[trigger] ps[i], ',') by {
            if i < b.len() {
                assert(ps[i] == b[i]);
            }
        }
    } else {
        assert(ps =~= b);
    }
}

/// The decimal forms of 0 and 1.
proof fn lemma_small_decimals()
    ensures
        decimal(0) == "0"@,
        decimal(1) == "1"@,
{
    reveal_strlit("0");
    reveal_strlit("1");
    assert(decimal(0) =~= "0"@);
    assert(decimal(1) =~= "1"@);
}

/// The first frame's control data, as the receiver reads it.
#[verifier::spinoff_prover]
#[verifier::rlimit(100)]
proof fn lemma_first_frame_read_back(req: GraphicsRequest, len: nat)
    ensures
        ({
            let pairs = crate::graphics::control_pairs(kitty_control(req, 0, len));
            let more = KITTY_CHUNK < len;
            &&& lookup(pairs, "a"@) == Some("t"@)
            &&& ctrl_u32(pairs, "s"@) == Some(req.pixel_w)
            &&& ctrl_u32(pairs, "v"@) == Some(req.pixel_h)
            &&& ctrl_u32(pairs, "c"@) == Some(req.cells_w)
            &&& ctrl_u32(pairs, "r"@) == Some(req.cells_h)
            &&& lookup(pairs, "i"@) is None
            &&& ctrl_u32(pairs, "m"@) == (if more { Some(1u32) } else { None })
        }),
{
    reveal_strlit("a");
    reveal_strlit("t");
    reveal_strlit("f");
    reveal_strlit("s");
    reveal_strlit("v");
    reveal_strlit("c");
    reveal_strlit("r");
    reveal_strlit("i");
    reveal_strlit("m");
    let more = 0 + KITTY_CHUNK < len;
    let ps = first_control_pieces(req, more);
    lemma_first_control_shape(req, 0, len);
    lemma_first_control_pairs(req, more);
    lemma_split_joined(ps, ',');
    let pairs = crate::graphics::control_pairs(kitty_control(req, 0, len));
    assert(pairs == pairs_of(ps));
    let base = base_control_pairs(req);
    assert(pairs[0] == base[0] && pairs[1] == base[1] && pairs[2] == base[2] && pairs[3] == base[3]);
    assert(pairs[4] == base[4] && pairs[5] == base[5] && pairs[6] == base[6]);
    assert("a"@[0] == 'a' && "t"@[0] == 't' && "f"@[0] == 'f' && "s"@[0] == 's' && "v"@[0] == 'v');
    assert("c"@[0] == 'c' && "r"@[0] == 'r' && "i"@[0] == 'i' && "m"@[0] == 'm');
    assert(pairs[0].0 == "a"@ && pairs[1].0 == "t"@ && pairs[2].0 == "f"@ && pairs[3].0 == "s"@);
    assert(pairs[4].0 == "v"@ && pairs[5].0 == "c"@ && pairs[6].0 == "r"@);
    assert forall|j: int| 0 <= j < 6 implies (#[trigger] pairs[j]).0 != "r"@ by {
        assert(pairs[j].0[0] != "r"@[0]);
    }
    lemma_lookup_at(pairs, "a"@, 0);
    lemma_lookup_at(pairs, "s"@, 3);
    lemma_lookup_at(pairs, "v"@, 4);
    lemma_lookup_at(pairs, "c"@, 5);
    lemma_lookup_at(pairs, "r"@, 6);
    lemma_lookup_none(pairs, "i"@);
    lemma_parse_decimal(req.pixel_w as nat);
    lemma_parse_decimal(req.pixel_h as nat);
    lemma_parse_decimal(req.cells_w as nat);
    lemma_parse_decimal(req.cells_h as nat);
    if more {
        lemma_lookup_at(pairs, "m"@, 7);
        lemma_small_decimals();
        lemma_parse_decimal(1);
    } else {
        lemma_lookup_none(pairs, "m"@);
    }
}

/// A later frame's control data, as the receiver reads it.
#[verifier::spinoff_prover]
#[verifier::rlimit(100)]
proof fn lemma_later_frame_read_back(req: GraphicsRequest, start: nat, len: nat)
    requires
        start > 0,
    ensures
        ({
            let pairs = crate::graphics::control_pairs(kitty_control(req, start, len));
            &&& ctrl_u32(pairs, "m"@) == Some(if start + KITTY_CHUNK < len { 1u32 } else { 0u32 })
            &&& lookup(pairs, "i"@) is None
            &&& lookup(pairs, "a"@) is None
        }),
{
    reveal_strlit("m=1");
    reveal_strlit("m=0");
    reveal_strlit("m");
    reveal_strlit("i");
    reveal_strlit("a");
    reveal_strlit("1");
    reveal_strlit("0");
    reveal_strlit("=");
    reveal(key_value);
    let v = if start + KITTY_CHUNK < len { "1"@ } else { "0"@ };
    let piece = kitty_control(req, start, len);
    assert(piece =~= key_value("m"@, v));
    lemma_short_pair("m"@, v);
    crate::text::lemma_split_on_whole(piece, ',');
    let pairs = crate::graphics::control_pairs(piece);
    assert(seq![piece].drop_last() =~= Seq::<Seq<char>>::empty());
    assert(pairs_of(Seq::<Seq<char>>::empty()) == Seq::<(Seq<char>, Seq<char>)>::empty());
    assert(pairs =~= seq![("m"@, v)]);
    lemma_lookup_at(pairs, "m"@, 0);
    lemma_lookup_none(pairs, "i"@);
    lemma_lookup_none(pairs, "a"@);
    lemma_small_decimals();
    lemma_parse_decimal(0);
    lemma_parse_decimal(1);
}

/// What the kitty encoder writes in a frame's control data, the crate's own
/// kitty receiver reads back: the first frame asks for display (`a=t`) and
/// gives the request's pixel size (`s`, `v`) and size in cells (`c`, `r`);
/// no frame names an image id, so the transfer goes to id 0; a frame says
/// `m=1` exactly when more frames follow, and a later frame that ends the
/// transfer says `m=0`.
pub proof fn law_kitty_control_read_back(req: GraphicsRequest, start: nat, len: nat)
    ensures
        ({
            let pairs = crate::graphics::control_pairs(kitty_control(req, start, len));
            let more = start + KITTY_CHUNK < len;
            &&& start == 0 ==> {
                &&& lookup(pairs, "a"@) == Some("t"@)
                &&& ctrl_u32(pairs, "s"@) == Some(req.pixel_w)
                &&& ctrl_u32(pairs, "v"@) == Some(req.pixel_h)
                &&& ctrl_u32(pairs, "c"@) == Some(req.cells_w)
                &&& ctrl_u32(pairs, "r"@) == Some(req.cells_h)
                &&& ctrl_u32(pairs, "m"@) == (if more { Some(1u32) } else { None })
            }
            &&& start > 0 ==> ctrl_u32(pairs, "m"@) == Some(if more { 1u32 } else { 0u32 })
            &&& lookup(pairs, "i"@) is None
        }),
{
    if start == 0 {
        lemma_first_frame_read_back(req, len);
    } else {
        lemma_later_frame_read_back(req, start, len);
    }
}

} // verus!
