//! The escape-sequence parser: `vte` splits a byte stream into printable
//! characters, control bytes and escape sequences; each is recorded as a
//! [`VtAction`] that the screen then applies.

use vstd::prelude::*;

verus! {

#[verifier::external_type_specification]
#[verifier::external_body]
pub struct ExParser<const N: usize>(vte::Parser<N>);

#[verifier::external_type_specification]
#[verifier::external_body]
pub struct ExParams(vte::Params);

/// One action that the parser asks the screen to perform.
#[derive(Debug)]
pub enum VtAction {
    /// A printable character.
    Print(char),
    /// A C0 or C1 control byte.
    Execute(u8),
    /// A CSI sequence: its parameters (each a list of sub-parameters), its
    /// intermediate bytes, whether the parser overflowed, and its final byte.
    Csi { params: Vec<Vec<u16>>, intermediates: Vec<u8>, ignore: bool, action: char },
    /// An OSC string: its `;`-separated fields, and whether it ended with BEL.
    Osc { fields: Vec<Vec<u8>>, bell_terminated: bool },
}

/// Records every action the parser reports.
struct Recorder {
    actions: Vec<VtAction>,
}

impl View for Recorder {
    type V = Seq<VtAction>;

    /// The actions recorded so far, in the order the parser reported them.
    closed spec fn view(&self) -> Seq<VtAction> {
        self.actions@
    }
}

/// Wraps `vte::Params::iter`: the parameters with their sub-parameters, as
/// plain vectors. Nothing is stated of the values: `Params` is opaque here.
#[verifier::external_body]
fn params_to_vec(params: &vte::Params) -> Vec<Vec<u16>> {
    let mut out = Vec::new();
    for p in params.iter() {
        out.push(p.to_vec());
    }
    out
}

/// Copies the parameter slices of an OSC string that `vte` hands to
/// `osc_dispatch` into owned vectors.
fn osc_params_to_vec(params: &[&[u8]]) -> (r: Vec<Vec<u8>>)
    ensures
        r@.len() == params@.len(),
        forall|i: int| 0 <= i < params@.len() ==> (#[trigger] r@[i])@ == params@[i]@,
{
    let mut out: Vec<Vec<u8>> = Vec::new();
    let mut i: usize = 0;
    while i < params.len()
        invariant
            i <= params@.len(),
            out@.len() == i,
            forall|k: int| 0 <= k < i ==> (#[trigger] out@[k])@ == params@[k]@,
        decreases params.len() - i,
    {
        out.push(vstd::slice::slice_to_vec(params[i]));
        i = i + 1;
    }
    out
}

impl vte::Perform for Recorder {
    fn print(&mut self, c: char)
        ensures
            final(self)@ == old(self)@.push(VtAction::Print(c)),
    {
        self.actions.push(VtAction::Print(c));
    }

    fn execute(&mut self, byte: u8)
        ensures
            final(self)@ == old(self)@.push(VtAction::Execute(byte)),
    {
        self.actions.push(VtAction::Execute(byte));
    }

    fn osc_dispatch(&mut self, params: &[&[u8]], bell_terminated: bool)
        ensures
            final(self)@ == old(self)@.push(final(self)@.last()),
            final(self)@.last() matches VtAction::Osc { fields, bell_terminated: bell }
                && bell == bell_terminated
                && fields@.len() == params@.len()
                && forall|i: int| 0 <= i < params@.len() ==> (#[trigger] fields@[i])@ == params@[i]@,
    {
        let fields = osc_params_to_vec(params);
        self.actions.push(VtAction::Osc { fields, bell_terminated });
    }

    /// Records a CSI sequence. Its parameter groups are what `params_to_vec`
    /// reads out of `vte::Params`, a type opaque here, so no clause states them.
    fn csi_dispatch(&mut self, params: &vte::Params, intermediates: &[u8], ignore: bool, action: char)
        ensures
            final(self)@ == old(self)@.push(final(self)@.last()),
            final(self)@.last() matches VtAction::Csi { params: _, intermediates: inter, ignore: ig, action: act }
                && inter@ == intermediates@
                && ig == ignore
                && act == action,
    {
        let params = params_to_vec(params);
        let intermediates = vstd::slice::slice_to_vec(intermediates);
        self.actions.push(VtAction::Csi { params, intermediates, ignore, action });
    }
}

/// The actions a `vte` parser reports when it is given `byte`, after it was
/// made in the ground state and given the bytes `history`, in order.
pub uninterp spec fn vt_byte_actions(history: Seq<u8>, byte: u8) -> Seq<VtAction>;

/// The actions a parser that has been given `history` reports for `bytes`:
/// those of each byte in turn, each after everything before it.
pub open spec fn vt_actions(history: Seq<u8>, bytes: Seq<u8>) -> Seq<VtAction>
    decreases bytes.len(),
{
    if bytes.len() == 0 {
        Seq::empty()
    } else {
        vt_actions(history, bytes.drop_last()) + vt_byte_actions(
            history + bytes.drop_last(),
            bytes.last(),
        )
    }
}

/// Feeding `a` and then `b` reports the actions of feeding `a + b`: the
/// parser's state carries over from one call to the next.
pub proof fn lemma_vt_actions_append(history: Seq<u8>, a: Seq<u8>, b: Seq<u8>)
    ensures
        vt_actions(history, a + b) == vt_actions(history, a) + vt_actions(history + a, b),
    decreases b.len(),
{
    if b.len() == 0 {
        assert(a + b =~= a);
        assert(vt_actions(history, a) + vt_actions(history + a, b) =~= vt_actions(history, a));
    } else {
        lemma_vt_actions_append(history, a, b.drop_last());
        assert((a + b).drop_last() =~= a + b.drop_last());
        assert((a + b).last() == b.last());
        assert(history + (a + b.drop_last()) =~= history + a + b.drop_last());
    }
}

/// A `vte` parser, with every byte it has been given since it was made.
pub struct VtParser {
    raw: vte::Parser,
    fed: Ghost<Seq<u8>>,
}

impl VtParser {
    /// The bytes this parser has been given since it was made, in order.
    pub closed spec fn history(&self) -> Seq<u8> {
        self.fed@
    }
}

/// Wraps `vte::Parser::new`: a parser in the ground state.
#[verifier::external_body]
fn fresh_vte() -> vte::Parser {
    vte::Parser::new()
}

/// A parser in the ground state, given nothing yet.
pub fn new_parser() -> (p: VtParser)
    ensures
        p.history() == Seq::<u8>::empty(),
{
    VtParser { raw: fresh_vte(), fed: Ghost(Seq::empty()) }
}

/// Wraps `vte::Parser::advance` on one byte, with a [`Recorder`]: the
/// actions the parser reported, in order. The parser is deterministic, so
/// they are those that [`vt_byte_actions`] names for `byte` after the
/// parser's history. The recorded history itself is left as it was;
/// [`advance`] extends it.
#[verifier::external_body]
fn advance_byte(parser: &mut VtParser, byte: u8) -> (r: Vec<VtAction>)
    ensures
        r@ == vt_byte_actions(old(parser).history(), byte),
        final(parser).history() == old(parser).history(),
{
    let mut rec = Recorder { actions: Vec::new() };
    parser.raw.advance(&mut rec, byte);
    rec.actions
}

/// Feeds `bytes` to the parser, one by one, and returns the actions it
/// reported, in order. The parser keeps partial sequences across calls.
pub fn advance(parser: &mut VtParser, bytes: &[u8]) -> (r: Vec<VtAction>)
    ensures
        r@ == vt_actions(old(parser).history(), bytes@),
        final(parser).history() == old(parser).history() + bytes@,
{
    let mut out: Vec<VtAction> = Vec::new();
    let mut i: usize = 0;
    while i < bytes.len()
        invariant
            i <= bytes@.len(),
            parser.history() == old(parser).history() + bytes@.take(i as int),
            out@ == vt_actions(old(parser).history(), bytes@.take(i as int)),
        decreases bytes.len() - i,
    {
        let mut acts = advance_byte(parser, bytes[i]);
        proof {
            let t = bytes@.take(i + 1);
            assert(t.drop_last() =~= bytes@.take(i as int));
            assert(t.last() == bytes@[i as int]);
        }
        out.append(&mut acts);
        parser.fed = Ghost(parser.fed@ + seq![bytes[i as int]]);
        i = i + 1;
        assert(parser.history() =~= old(parser).history() + bytes@.take(i as int));
    }
    assert(bytes@.take(bytes@.len() as int) =~= bytes@);
    out
}

} // verus!
