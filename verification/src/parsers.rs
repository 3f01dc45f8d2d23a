//! The parser and validator for the textual machine description.
//!
//! Two sub-grammars are accepted, both over ASCII text:
//!
//! ```text
//! machine      = name ',' state ',' '[' states ']' ',' '[' edges ']'
//! fallible     = machine ',' error-type ',' state
//! state        = ident ( '<' type-args '>' )?
//! edges        = ( state '=>' state ( ',' state '=>' state )* ','? )?
//! messages     = name ',' '[' ( channel ( ',' channel )* ','? )? ']'
//! channel      = payload ( '->' | '<-' ) state
//! ```
//!
//! The grammar is also written down as specification functions
//! ([`machine_description`], [`try_machine_description`],
//! [`messages_description`]): each parse entry point succeeds exactly
//! when the whole text follows its grammar, and its result is pinned to
//! what the text declares.  A malformed token sequence fails with a
//! [`ParseError`] carrying the offending byte offset.  Referential
//! integrity — every transition endpoint, the initial state, the error
//! state and every message target must be a declared state, and no two
//! states may share a dispatch tag — is checked once the full state list
//! is known and fails with a [`ValidationError`], a distinct kind of
//! failure.

use crate::types::{
    ascii_seq, generics_view, spec_state_tag, ErrorType, Machine, Message, MessageDir, Messages,
    Mode, State, StateMessage, TraitDefinitions, Transition, TryMachine,
};
use vstd::prelude::*;
use vstd::std_specs::cmp::PartialEqSpec;

verus! {

/// A malformed token sequence: the byte offset of the offending token.
#[derive(Clone, Copy, Debug, PartialEq, Eq, Structural)]
pub struct ParseError {
    /// Byte offset into the description at which parsing failed.
    pub pos: usize,
}

/// A referential-integrity failure, detected only after the full state
/// list is known.
#[derive(Clone, Copy, Debug, PartialEq, Eq, Structural)]
pub enum ValidationError {
    /// Two declared states share a dispatch tag; the index is the later
    /// of the two.
    DuplicateStateTag { index: usize },
    /// A transition's source is not a declared state; the index is the
    /// transition's position in declaration order.
    UnknownTransitionSource { index: usize },
    /// A transition's destination is not a declared state.
    UnknownTransitionDestination { index: usize },
    /// The declared initial state is not in the state list.
    UnknownInitialState,
    /// The declared error state is not in the state list.
    UnknownErrorState,
    /// A messages description names a machine other than the one it is
    /// validated against.
    MachineNameMismatch,
    /// A message channel targets a state that is not declared; the index
    /// is the channel's position in declaration order.
    UnknownMessageState { index: usize },
}

/// Either kind of failure a description can have.
#[derive(Clone, Copy, Debug, PartialEq, Eq, Structural)]
pub enum DefinitionError {
    /// The text does not follow the grammar.
    Parse(ParseError),
    /// The text follows the grammar but refers to undeclared states, or
    /// declares two states with one dispatch tag.
    Validation(ValidationError),
}

/// Whitespace accepted between tokens.
pub open spec fn is_ws(b: u8) -> bool {
    b == 32 || b == 9 || b == 10 || b == 13
}

/// Bytes that may start an identifier: ASCII letters and underscore.
pub open spec fn is_ident_start(b: u8) -> bool {
    (65 <= b <= 90) || (97 <= b <= 122) || b == 95
}

/// Bytes that may continue an identifier: letters, digits, underscore.
pub open spec fn is_ident_byte(b: u8) -> bool {
    is_ident_start(b) || (48 <= b <= 57)
}

/// Bytes accepted inside a bracketed type-argument list, besides the
/// angle brackets themselves.
pub open spec fn is_generic_byte(b: u8) -> bool {
    is_ident_byte(b) || is_ws(b) || b == 44 || b == 39 || b == 38 || b == 91 || b == 93
}

/// The first position at or after `pos` that does not hold whitespace.
pub open spec fn spec_ws_end(s: Seq<u8>, pos: int) -> int
    decreases s.len() - pos,
    when 0 <= pos
{
    if pos < s.len() && is_ws(s[pos]) {
        spec_ws_end(s, pos + 1)
    } else {
        pos
    }
}

/// The end of the identifier-byte run starting at `pos`.
pub open spec fn spec_ident_end(s: Seq<u8>, pos: int) -> int
    decreases s.len() - pos,
    when 0 <= pos
{
    if pos < s.len() && is_ident_byte(s[pos]) {
        spec_ident_end(s, pos + 1)
    } else {
        pos
    }
}

/// The identifier read at `pos` and the position after it, if one starts
/// there.
pub open spec fn spec_parse_ident(s: Seq<u8>, pos: int) -> Option<(Seq<u8>, int)> {
    if 0 <= pos < s.len() && is_ident_start(s[pos]) {
        let e = spec_ident_end(s, pos + 1);
        Some((s.subrange(pos, e), e))
    } else {
        None
    }
}

/// The position after a balanced type-argument list whose opening `<`
/// was consumed; `depth` counts open brackets.  `None` when an
/// unacceptable byte or the end of the text is reached first.
pub open spec fn spec_generics_end(s: Seq<u8>, pos: int, depth: int) -> Option<int>
    decreases s.len() - pos,
    when 0 <= pos
{
    if pos >= s.len() {
        None
    } else if s[pos] == 60 {
        spec_generics_end(s, pos + 1, depth + 1)
    } else if s[pos] == 62 {
        if depth == 1 {
            Some(pos + 1)
        } else {
            spec_generics_end(s, pos + 1, depth - 1)
        }
    } else if is_generic_byte(s[pos]) {
        spec_generics_end(s, pos + 1, depth)
    } else {
        None
    }
}

/// The bracketed type-argument list read at `pos` (which must hold the
/// opening `<`), brackets included, and the position after it.
pub open spec fn spec_parse_generics(s: Seq<u8>, pos: int) -> Option<(Seq<u8>, int)> {
    match spec_generics_end(s, pos + 1, 1) {
        Some(e) => Some((s.subrange(pos, e), e)),
        None => None,
    }
}

/// Advances past whitespace.
fn skip_ws(s: &Vec<u8>, pos: usize) -> (r: usize)
    requires
        pos <= s@.len(),
    ensures
        pos <= r <= s@.len(),
        r as int == spec_ws_end(s@, pos as int),
        r < s@.len() ==> !is_ws(s@[r as int]),
{
    let mut i = pos;
    while i < s.len()
        invariant
            pos <= i <= s@.len(),
            spec_ws_end(s@, pos as int) == spec_ws_end(s@, i as int),
        decreases s@.len() - i,
    {
        let b = s[i];
        if !(b == 32 || b == 9 || b == 10 || b == 13) {
            return i;
        }
        i = i + 1;
    }
    i
}

/// Consumes one expected byte.
fn expect(s: &Vec<u8>, pos: usize, b: u8) -> (r: Result<usize, ParseError>)
    requires
        pos <= s@.len(),
    ensures
        match r {
            Ok(p) => p == pos + 1 && pos < s@.len() && s@[pos as int] == b,
            Err(e) => e.pos == pos && (pos == s@.len() || s@[pos as int] != b),
        },
{
    if pos < s.len() && s[pos] == b {
        Ok(pos + 1)
    } else {
        Err(ParseError { pos })
    }
}

/// Parses an identifier.
fn parse_ident(s: &Vec<u8>, pos: usize) -> (r: Result<(Vec<u8>, usize), ParseError>)
    requires
        pos <= s@.len(),
    ensures
        match r {
            Ok((name, p)) => {
                &&& pos < p <= s@.len()
                &&& spec_parse_ident(s@, pos as int) == Some((name@, p as int))
                &&& name@ == s@.subrange(pos as int, p as int)
                &&& name@.len() > 0
                &&& is_ident_start(name@[0])
                &&& forall|j: int| 0 <= j < name@.len() ==> is_ident_byte(name@[j])
                &&& ascii_seq(name@)
            },
            Err(e) => e.pos == pos && spec_parse_ident(s@, pos as int) is None,
        },
{
    let n = s.len();
    if pos == n {
        return Err(ParseError { pos });
    }
    let b0 = s[pos];
    let start_ok = (65 <= b0 && b0 <= 90) || (97 <= b0 && b0 <= 122) || b0 == 95;
    if !start_ok {
        return Err(ParseError { pos });
    }
    let mut out: Vec<u8> = Vec::new();
    out.push(b0);
    let mut i = pos + 1;
    proof {
        assert(out@ =~= s@.subrange(pos as int, pos + 1));
    }
    while i < n
        invariant
            n == s@.len(),
            pos < i <= n,
            out@ == s@.subrange(pos as int, i as int),
            forall|j: int| 0 <= j < out@.len() ==> is_ident_byte(out@[j]),
            spec_ident_end(s@, pos + 1) == spec_ident_end(s@, i as int),
        ensures
            n == s@.len(),
            pos < i <= n,
            out@ == s@.subrange(pos as int, i as int),
            forall|j: int| 0 <= j < out@.len() ==> is_ident_byte(out@[j]),
            spec_ident_end(s@, pos + 1) == spec_ident_end(s@, i as int),
            i < n ==> !is_ident_byte(s@[i as int]),
        decreases n - i,
    {
        let b = s[i];
        let ident_ok = (65 <= b && b <= 90) || (97 <= b && b <= 122) || b == 95 || (48 <= b && b
            <= 57);
        if !ident_ok {
            break;
        }
        out.push(b);
        proof {
            assert(out@ =~= s@.subrange(pos as int, i + 1));
        }
        i = i + 1;
    }
    Ok((out, i))
}

/// Parses a bracketed type-argument list, brackets included, tracking
/// nesting depth.
fn parse_generics(s: &Vec<u8>, pos: usize) -> (r: Result<(Vec<u8>, usize), ParseError>)
    requires
        pos < s@.len(),
        s@[pos as int] == 60,
    ensures
        match r {
            Ok((g, p)) => {
                &&& pos < p <= s@.len()
                &&& g@ == s@.subrange(pos as int, p as int)
                &&& g@.len() >= 2
                &&& ascii_seq(g@)
                &&& spec_parse_generics(s@, pos as int) == Some((g@, p as int))
            },
            Err(e) => pos <= e.pos <= s@.len() && spec_parse_generics(s@, pos as int) is None,
        },
{
    let n = s.len();
    let mut out: Vec<u8> = Vec::new();
    out.push(60);
    let mut depth: usize = 1;
    let mut i = pos + 1;
    proof {
        assert(out@ =~= s@.subrange(pos as int, pos + 1));
    }
    while i < n && depth > 0
        invariant
            n == s@.len(),
            pos < i <= s@.len(),
            out@ == s@.subrange(pos as int, i as int),
            ascii_seq(out@),
            out@.len() >= 1,
            depth <= i - pos,
            i == pos + 1 ==> depth == 1,
            depth > 0 ==> spec_generics_end(s@, pos + 1, 1) == spec_generics_end(
                s@,
                i as int,
                depth as int,
            ),
            depth == 0 ==> spec_generics_end(s@, pos + 1, 1) == Some(i as int),
        decreases s@.len() - i,
    {
        let b = s[i];
        if b == 60 {
            depth = depth + 1;
        } else if b == 62 {
            depth = depth - 1;
        } else {
            let allowed = (65 <= b && b <= 90) || (97 <= b && b <= 122) || b == 95 || (48 <= b
                && b <= 57) || b == 32 || b == 9 || b == 10 || b == 13 || b == 44 || b == 39
                || b == 38 || b == 91 || b == 93;
            if !allowed {
                return Err(ParseError { pos: i });
            }
        }
        out.push(b);
        proof {
            assert(out@ =~= s@.subrange(pos as int, i + 1));
        }
        i = i + 1;
    }
    if depth > 0 {
        return Err(ParseError { pos: i });
    }
    Ok((out, i))
}

/// A state reference as read from the text: the identifier and the
/// optional bracketed type-argument text.
pub struct RawState {
    /// The identifier.
    pub name: Seq<u8>,
    /// The bracketed type-argument text, if one follows the identifier.
    pub generics: Option<Seq<u8>>,
}

/// A transition edge as read from the text.
pub struct RawEdge {
    /// The edge's source reference.
    pub src: RawState,
    /// The edge's destination reference.
    pub dst: RawState,
}

/// A machine description's syntax, before validation: the machine name,
/// the initial state reference, the declared states in declaration
/// order, and the declared edges in declaration order.
pub struct RawMachineText {
    /// The machine's name.
    pub name: Seq<u8>,
    /// The initial state reference.
    pub init: RawState,
    /// The declared states, in declaration order.
    pub states: Seq<RawState>,
    /// The declared edges, in declaration order.
    pub edges: Seq<RawEdge>,
}

/// One message channel as read from the text: `->` pushes the payload
/// into the state, `<-` polls it from the state.
pub struct RawChannel {
    /// The payload's identifier.
    pub payload_name: Seq<u8>,
    /// The payload's bracketed type-argument text, if any.
    pub payload_generics: Option<Seq<u8>>,
    /// True for a `->` (push) channel, false for a `<-` (poll) channel.
    pub push: bool,
    /// The targeted state reference.
    pub state: RawState,
}

/// The text view of a parsed state.
pub open spec fn raw_of(st: State) -> RawState {
    RawState { name: st.name@, generics: generics_view(st.generics) }
}

/// The dispatch tag a state reference derives.
pub open spec fn raw_tag(rs: RawState) -> Seq<u8> {
    spec_state_tag(rs.name, rs.generics)
}

/// The text view of a parsed channel; the direction becomes the `push`
/// flag.
pub open spec fn raw_channel_of(sm: StateMessage) -> RawChannel {
    match sm.message {
        MessageDir::Push(m) => RawChannel {
            payload_name: m.name@,
            payload_generics: generics_view(m.generics),
            push: true,
            state: raw_of(sm.state),
        },
        MessageDir::Poll(m) => RawChannel {
            payload_name: m.name@,
            payload_generics: generics_view(m.generics),
            push: false,
            state: raw_of(sm.state),
        },
    }
}

/// The state reference read at `pos`: an identifier, and a type-argument
/// list exactly when `<` immediately follows it.
pub open spec fn spec_parse_state(s: Seq<u8>, pos: int) -> Option<(RawState, int)> {
    match spec_parse_ident(s, pos) {
        None => None,
        Some((name, p1)) => if p1 < s.len() && s[p1] == 60 {
            match spec_parse_generics(s, p1) {
                None => None,
                Some((g, p2)) => Some((RawState { name, generics: Some(g) }, p2)),
            }
        } else {
            Some((RawState { name, generics: None }, p1))
        },
    }
}

/// The edge read at `pos`: a source reference, `=>`, a destination
/// reference.
pub open spec fn spec_parse_edge(s: Seq<u8>, pos: int) -> Option<(RawEdge, int)> {
    match spec_parse_state(s, pos) {
        None => None,
        Some((src, p1)) => {
            let p2 = spec_ws_end(s, p1);
            if p2 + 1 < s.len() && s[p2] == 61 && s[p2 + 1] == 62 {
                let p3 = spec_ws_end(s, p2 + 2);
                match spec_parse_state(s, p3) {
                    None => None,
                    Some((dst, p4)) => Some((RawEdge { src, dst }, p4)),
                }
            } else {
                None
            }
        },
    }
}

/// The payload read at `pos`: an identifier, and a type-argument list
/// exactly when `<` follows and does not start a `<-` arrow.
pub open spec fn spec_parse_payload(s: Seq<u8>, pos: int) -> Option<(
    (Seq<u8>, Option<Seq<u8>>),
    int,
)> {
    match spec_parse_ident(s, pos) {
        None => None,
        Some((name, p1)) => {
            let opens = p1 < s.len() && s[p1] == 60;
            let poll_arrow = p1 + 1 < s.len() && s[p1 + 1] == 45;
            if opens && !poll_arrow {
                match spec_parse_generics(s, p1) {
                    None => None,
                    Some((g, p2)) => Some(((name, Some(g)), p2)),
                }
            } else {
                Some(((name, None), p1))
            }
        },
    }
}

/// The channel read at `pos`: a payload, a `->` or `<-` arrow, and the
/// target state reference.
pub open spec fn spec_parse_channel(s: Seq<u8>, pos: int) -> Option<(RawChannel, int)> {
    match spec_parse_payload(s, pos) {
        None => None,
        Some(((pn, pg), p1)) => {
            let p2 = spec_ws_end(s, p1);
            let push = p2 + 1 < s.len() && s[p2] == 45 && s[p2 + 1] == 62;
            let poll = p2 + 1 < s.len() && s[p2] == 60 && s[p2 + 1] == 45;
            if push || poll {
                let p3 = spec_ws_end(s, p2 + 2);
                match spec_parse_state(s, p3) {
                    None => None,
                    Some((st, p4)) => Some((
                        RawChannel { payload_name: pn, payload_generics: pg, push, state: st },
                        p4,
                    )),
                }
            } else {
                None
            }
        },
    }
}

/// The text view of a parsed edge.
pub open spec fn raw_edge_of(t: Transition) -> RawEdge {
    RawEdge { src: raw_of(t.src), dst: raw_of(t.dst) }
}

/// The comma-separated state references read from `pos` (the first
/// item) up to and including the closing `]`, a trailing comma allowed.
/// The position guard on the recursion is never false on real text: a
/// state reference always consumes at least one byte.
pub open spec fn spec_state_items(s: Seq<u8>, pos: int) -> Option<(Seq<RawState>, int)>
    decreases s.len() - pos,
    when 0 <= pos
{
    match spec_parse_state(s, pos) {
        None => None,
        Some((st, p1)) => {
            let p2 = spec_ws_end(s, p1);
            if p2 < s.len() && s[p2] == 44 {
                let p3 = spec_ws_end(s, p2 + 1);
                if p3 < s.len() && s[p3] == 93 {
                    Some((seq![st], p3 + 1))
                } else if p3 > pos && p3 <= s.len() {
                    match spec_state_items(s, p3) {
                        None => None,
                        Some((rest, pe)) => Some((seq![st] + rest, pe)),
                    }
                } else {
                    None
                }
            } else if p2 < s.len() && s[p2] == 93 {
                Some((seq![st], p2 + 1))
            } else {
                None
            }
        },
    }
}

/// The bracketed state list read at `pos`, which must hold the `[`;
/// possibly empty.
pub open spec fn spec_state_block(s: Seq<u8>, pos: int) -> Option<(Seq<RawState>, int)> {
    if 0 <= pos < s.len() && s[pos] == 91 {
        let p0 = spec_ws_end(s, pos + 1);
        if p0 < s.len() && s[p0] == 93 {
            Some((Seq::empty(), p0 + 1))
        } else {
            spec_state_items(s, p0)
        }
    } else {
        None
    }
}

/// The comma-separated edges read from `pos` up to and including the
/// closing `]`, a trailing comma allowed.
pub open spec fn spec_edge_items(s: Seq<u8>, pos: int) -> Option<(Seq<RawEdge>, int)>
    decreases s.len() - pos,
    when 0 <= pos
{
    match spec_parse_edge(s, pos) {
        None => None,
        Some((e, p1)) => {
            let p2 = spec_ws_end(s, p1);
            if p2 < s.len() && s[p2] == 44 {
                let p3 = spec_ws_end(s, p2 + 1);
                if p3 < s.len() && s[p3] == 93 {
                    Some((seq![e], p3 + 1))
                } else if p3 > pos && p3 <= s.len() {
                    match spec_edge_items(s, p3) {
                        None => None,
                        Some((rest, pe)) => Some((seq![e] + rest, pe)),
                    }
                } else {
                    None
                }
            } else if p2 < s.len() && s[p2] == 93 {
                Some((seq![e], p2 + 1))
            } else {
                None
            }
        },
    }
}

/// The bracketed edge list read at `pos`, which must hold the `[`;
/// possibly empty.
pub open spec fn spec_edge_block(s: Seq<u8>, pos: int) -> Option<(Seq<RawEdge>, int)> {
    if 0 <= pos < s.len() && s[pos] == 91 {
        let p0 = spec_ws_end(s, pos + 1);
        if p0 < s.len() && s[p0] == 93 {
            Some((Seq::empty(), p0 + 1))
        } else {
            spec_edge_items(s, p0)
        }
    } else {
        None
    }
}

/// The comma-separated channels read from `pos` up to and including the
/// closing `]`, a trailing comma allowed.
pub open spec fn spec_channel_items(s: Seq<u8>, pos: int) -> Option<(Seq<RawChannel>, int)>
    decreases s.len() - pos,
    when 0 <= pos
{
    match spec_parse_channel(s, pos) {
        None => None,
        Some((c, p1)) => {
            let p2 = spec_ws_end(s, p1);
            if p2 < s.len() && s[p2] == 44 {
                let p3 = spec_ws_end(s, p2 + 1);
                if p3 < s.len() && s[p3] == 93 {
                    Some((seq![c], p3 + 1))
                } else if p3 > pos && p3 <= s.len() {
                    match spec_channel_items(s, p3) {
                        None => None,
                        Some((rest, pe)) => Some((seq![c] + rest, pe)),
                    }
                } else {
                    None
                }
            } else if p2 < s.len() && s[p2] == 93 {
                Some((seq![c], p2 + 1))
            } else {
                None
            }
        },
    }
}

/// The bracketed channel list read at `pos`, which must hold the `[`;
/// possibly empty.
pub open spec fn spec_channel_block(s: Seq<u8>, pos: int) -> Option<(Seq<RawChannel>, int)> {
    if 0 <= pos < s.len() && s[pos] == 91 {
        let p0 = spec_ws_end(s, pos + 1);
        if p0 < s.len() && s[p0] == 93 {
            Some((Seq::empty(), p0 + 1))
        } else {
            spec_channel_items(s, p0)
        }
    } else {
        None
    }
}

/// The machine grammar's shared head read from `pos`: the machine name,
/// the initial state reference, the bracketed state list and the
/// bracketed edge list, comma-separated.
pub open spec fn spec_machine_text(s: Seq<u8>, pos: int) -> Option<(RawMachineText, int)>
    recommends
        0 <= pos,
{
    let p0 = spec_ws_end(s, pos);
    match spec_parse_ident(s, p0) {
        None => None,
        Some((name, p1)) => {
            let p2 = spec_ws_end(s, p1);
            if p2 < s.len() && s[p2] == 44 {
                let p3 = spec_ws_end(s, p2 + 1);
                match spec_parse_state(s, p3) {
                    None => None,
                    Some((init, p4)) => {
                        let p5 = spec_ws_end(s, p4);
                        if p5 < s.len() && s[p5] == 44 {
                            let p6 = spec_ws_end(s, p5 + 1);
                            match spec_state_block(s, p6) {
                                None => None,
                                Some((states, p7)) => {
                                    let p8 = spec_ws_end(s, p7);
                                    if p8 < s.len() && s[p8] == 44 {
                                        let p9 = spec_ws_end(s, p8 + 1);
                                        match spec_edge_block(s, p9) {
                                            None => None,
                                            Some((edges, p10)) => Some((
                                                RawMachineText { name, init, states, edges },
                                                p10,
                                            )),
                                        }
                                    } else {
                                        None
                                    }
                                },
                            }
                        } else {
                            None
                        }
                    },
                }
            } else {
                None
            }
        },
    }
}

/// The machine description the text holds, when the whole text follows
/// the non-fallible machine grammar (trailing whitespace allowed).
pub open spec fn machine_description(s: Seq<u8>) -> Option<RawMachineText> {
    match spec_machine_text(s, 0) {
        Some((raw, p)) => if spec_ws_end(s, p) == s.len() {
            Some(raw)
        } else {
            None
        },
        None => None,
    }
}

/// The fallible machine description the text holds: the machine head,
/// then the error type and the error state reference, comma-separated.
pub open spec fn try_machine_description(s: Seq<u8>) -> Option<
    (RawMachineText, RawState, RawState),
> {
    match spec_machine_text(s, 0) {
        None => None,
        Some((raw, p)) => {
            let p1 = spec_ws_end(s, p);
            if p1 < s.len() && s[p1] == 44 {
                let p2 = spec_ws_end(s, p1 + 1);
                match spec_parse_state(s, p2) {
                    None => None,
                    Some((etype, p3)) => {
                        let p4 = spec_ws_end(s, p3);
                        if p4 < s.len() && s[p4] == 44 {
                            let p5 = spec_ws_end(s, p4 + 1);
                            match spec_parse_state(s, p5) {
                                None => None,
                                Some((eref, p6)) => if spec_ws_end(s, p6) == s.len() {
                                    Some((raw, etype, eref))
                                } else {
                                    None
                                },
                            }
                        } else {
                            None
                        }
                    },
                }
            } else {
                None
            }
        },
    }
}

/// The messages description the text holds: the machine name and the
/// declared channels in declaration order.
pub open spec fn messages_description(s: Seq<u8>) -> Option<(Seq<u8>, Seq<RawChannel>)> {
    let p0 = spec_ws_end(s, 0);
    match spec_parse_ident(s, p0) {
        None => None,
        Some((name, p1)) => {
            let p2 = spec_ws_end(s, p1);
            if p2 < s.len() && s[p2] == 44 {
                let p3 = spec_ws_end(s, p2 + 1);
                match spec_channel_block(s, p3) {
                    None => None,
                    Some((chans, p4)) => if spec_ws_end(s, p4) == s.len() {
                        Some((name, chans))
                    } else {
                        None
                    },
                }
            } else {
                None
            }
        },
    }
}

/// True when some declared state reference derives the given dispatch
/// tag.
pub open spec fn raw_declared(states: Seq<RawState>, tag: Seq<u8>) -> bool {
    exists|i: int| 0 <= i < states.len() && raw_tag(states[i]) == tag
}

/// True when an earlier declared state reference derives the same
/// dispatch tag as the one at `j`.
pub open spec fn raw_dup_at(states: Seq<RawState>, j: int) -> bool {
    exists|i: int| 0 <= i < j && raw_tag(states[i]) == raw_tag(states[j])
}

/// True when the edge at `k` names an undeclared source state.
pub open spec fn raw_src_unknown(states: Seq<RawState>, edges: Seq<RawEdge>, k: int) -> bool {
    !raw_declared(states, raw_tag(edges[k].src))
}

/// True when the edge at `k` names an undeclared destination state.
pub open spec fn raw_dst_unknown(states: Seq<RawState>, edges: Seq<RawEdge>, k: int) -> bool {
    !raw_declared(states, raw_tag(edges[k].dst))
}

/// True when the edge at `k` names any undeclared state.
pub open spec fn raw_defect(states: Seq<RawState>, edges: Seq<RawEdge>, k: int) -> bool {
    raw_src_unknown(states, edges, k) || raw_dst_unknown(states, edges, k)
}

/// The destination tags of the edges whose source derives the given
/// tag, in declaration order.
pub open spec fn raw_transit_tags(tag: Seq<u8>, edges: Seq<RawEdge>) -> Seq<Seq<u8>>
    decreases edges.len(),
{
    if edges.len() == 0 {
        Seq::empty()
    } else {
        let prefix = raw_transit_tags(tag, edges.drop_last());
        if raw_tag(edges.last().src) == tag {
            prefix.push(raw_tag(edges.last().dst))
        } else {
            prefix
        }
    }
}

/// True when `transits` lists, in declaration order, one state index per
/// edge out of the state with the given tag, each index carrying the
/// edge's destination tag.
pub open spec fn raw_transits_resolved(
    states: Seq<State>,
    edges: Seq<RawEdge>,
    transits: Seq<usize>,
    tag: Seq<u8>,
) -> bool {
    let wanted = raw_transit_tags(tag, edges);
    &&& transits.len() == wanted.len()
    &&& forall|k: int|
        0 <= k < wanted.len() ==> ((#[trigger] transits[k]) as int) < states.len()
            && states[transits[k] as int].enum_name@ == wanted[k]
}

/// True when some declared state carries the given dispatch tag.
pub open spec fn declared_tag(states: Seq<State>, tag: Seq<u8>) -> bool {
    exists|i: int| 0 <= i < states.len() && states[i].enum_name@ == tag
}

/// True when an earlier declared state carries the same dispatch tag as
/// the state at `j`.
pub open spec fn tag_dup_at(states: Seq<State>, j: int) -> bool {
    exists|i: int| 0 <= i < j && states[i].enum_name@ == states[j].enum_name@
}

/// True when the transition at `k` names an undeclared source state.
pub open spec fn src_unknown(states: Seq<State>, trs: Seq<Transition>, k: int) -> bool {
    !declared_tag(states, trs[k].src.enum_name@)
}

/// True when the transition at `k` names an undeclared destination state.
pub open spec fn dst_unknown(states: Seq<State>, trs: Seq<Transition>, k: int) -> bool {
    !declared_tag(states, trs[k].dst.enum_name@)
}

/// True when the transition at `k` names any undeclared state.
pub open spec fn trans_defect(states: Seq<State>, trs: Seq<Transition>, k: int) -> bool {
    src_unknown(states, trs, k) || dst_unknown(states, trs, k)
}

/// The destination tags of the transitions whose source carries the given
/// tag, in declaration order.
pub open spec fn transit_tags(tag: Seq<u8>, trs: Seq<Transition>) -> Seq<Seq<u8>>
    decreases trs.len(),
{
    if trs.len() == 0 {
        Seq::empty()
    } else {
        let prefix = transit_tags(tag, trs.drop_last());
        if trs.last().src.enum_name@ == tag {
            prefix.push(trs.last().dst.enum_name@)
        } else {
            prefix
        }
    }
}

/// True when `transits` lists, in declaration order, one declared-state
/// index per transition out of the state with the given tag, each index
/// carrying the transition's destination tag.
pub open spec fn transits_resolved(
    states: Seq<State>,
    trs: Seq<Transition>,
    transits: Seq<usize>,
    tag: Seq<u8>,
) -> bool {
    let wanted = transit_tags(tag, trs);
    &&& transits.len() == wanted.len()
    &&& forall|k: int|
        0 <= k < wanted.len() ==> ((#[trigger] transits[k]) as int) < states.len()
            && states[transits[k] as int].enum_name@ == wanted[k]
}

/// Transit tag lists agree between a parsed edge list and its text
/// view.
proof fn lemma_transit_tags_bridge(tag: Seq<u8>, trs: Seq<Transition>, edges: Seq<RawEdge>)
    requires
        edges == trs.map_values(|t: Transition| raw_edge_of(t)),
        forall|k: int|
            0 <= k < trs.len() ==> (#[trigger] trs[k]).src.tag_consistent() && trs[
                k
            ].dst.tag_consistent(),
    ensures
        raw_transit_tags(tag, edges) == transit_tags(tag, trs),
    decreases trs.len(),
{
    if trs.len() == 0 {
    } else {
        assert(edges.drop_last() =~= trs.drop_last().map_values(
            |t: Transition| raw_edge_of(t),
        ));
        lemma_transit_tags_bridge(tag, trs.drop_last(), edges.drop_last());
        assert(edges.last() == raw_edge_of(trs.last()));
        assert(raw_tag(edges.last().src) == trs.last().src.enum_name@);
        assert(raw_tag(edges.last().dst) == trs.last().dst.enum_name@);
    }
}

/// The validation predicates agree between parsed lists and their text
/// views.
proof fn lemma_validation_bridge(
    sts: Seq<State>,
    trs: Seq<Transition>,
    states_r: Seq<RawState>,
    edges_r: Seq<RawEdge>,
)
    requires
        states_r == sts.map_values(|st: State| raw_of(st)),
        forall|i: int| 0 <= i < sts.len() ==> (#[trigger] sts[i]).tag_consistent(),
        edges_r == trs.map_values(|t: Transition| raw_edge_of(t)),
        forall|k: int|
            0 <= k < trs.len() ==> (#[trigger] trs[k]).src.tag_consistent() && trs[
                k
            ].dst.tag_consistent(),
    ensures
        forall|t: Seq<u8>| #[trigger] raw_declared(states_r, t) == declared_tag(sts, t),
        forall|j: int|
            0 <= j < sts.len() ==> #[trigger] raw_dup_at(states_r, j) == tag_dup_at(sts, j),
        forall|k: int|
            0 <= k < trs.len() ==> (#[trigger] raw_defect(states_r, edges_r, k)) == trans_defect(
                sts,
                trs,
                k,
            ) && raw_src_unknown(states_r, edges_r, k) == src_unknown(sts, trs, k)
                && raw_dst_unknown(states_r, edges_r, k) == dst_unknown(sts, trs, k),
{
    assert forall|i: int| 0 <= i < sts.len() implies #[trigger] raw_tag(states_r[i]) == sts[
        i
    ].enum_name@ by {
        assert(states_r[i] == raw_of(sts[i]));
    }
    assert forall|t: Seq<u8>| #[trigger] raw_declared(states_r, t) == declared_tag(
        sts,
        t,
    ) by {
        if raw_declared(states_r, t) {
            let i = choose|i: int| 0 <= i < states_r.len() && raw_tag(states_r[i]) == t;
            assert(sts[i].enum_name@ == t);
        }
        if declared_tag(sts, t) {
            let i = choose|i: int| 0 <= i < sts.len() && sts[i].enum_name@ == t;
            assert(raw_tag(states_r[i]) == t);
        }
    }
    assert forall|j: int| 0 <= j < sts.len() implies #[trigger] raw_dup_at(states_r, j)
        == tag_dup_at(sts, j) by {
        if raw_dup_at(states_r, j) {
            let i = choose|i: int| 0 <= i < j && raw_tag(states_r[i]) == raw_tag(states_r[j]);
            assert(sts[i].enum_name@ == sts[j].enum_name@);
        }
        if tag_dup_at(sts, j) {
            let i = choose|i: int| 0 <= i < j && sts[i].enum_name@ == sts[j].enum_name@;
            assert(raw_tag(states_r[i]) == raw_tag(states_r[j]));
        }
    }
    assert forall|k: int| 0 <= k < trs.len() implies (#[trigger] raw_defect(
        states_r,
        edges_r,
        k,
    )) == trans_defect(sts, trs, k) && raw_src_unknown(states_r, edges_r, k) == src_unknown(
        sts,
        trs,
        k,
    ) && raw_dst_unknown(states_r, edges_r, k) == dst_unknown(sts, trs, k) by {
        assert(edges_r[k] == raw_edge_of(trs[k]));
        assert(raw_tag(edges_r[k].src) == trs[k].src.enum_name@);
        assert(raw_tag(edges_r[k].dst) == trs[k].dst.enum_name@);
        assert(raw_declared(states_r, raw_tag(edges_r[k].src)) == declared_tag(
            sts,
            trs[k].src.enum_name@,
        ));
        assert(raw_declared(states_r, raw_tag(edges_r[k].dst)) == declared_tag(
            sts,
            trs[k].dst.enum_name@,
        ));
    }
}

/// Compares two byte strings.
fn vec_eq(a: &Vec<u8>, b: &Vec<u8>) -> (r: bool)
    ensures
        r == (a@ == b@),
{
    let r = a == b;
    proof {
        if r {
            assert(a@ =~= b@);
        } else {
            if a@ == b@ {
                assert(a.eq_spec(b)) by {
                    assert(forall|i: int|
                        0 <= i < a@.len() ==> a@[i] == b@[i] && (#[trigger] a@[i]).eq_spec(
                            &b@[i],
                        ));
                }
            }
        }
    }
    r
}

/// Enriches each state with its resolved outgoing-transition list, in
/// declaration order, enforcing referential integrity: distinct dispatch
/// tags, and every transition endpoint a declared state.  The checks run
/// in that order; within the transitions, declaration order, source
/// before destination.
pub fn resolve_transits(states: Vec<State>, transitions: &Vec<Transition>) -> (r: Result<
    Vec<State>,
    ValidationError,
>)
    ensures
        match r {
            Ok(out) => {
                &&& out@.len() == states@.len()
                &&& forall|i: int|
                    0 <= i < states@.len() ==> (#[trigger] out@[i]).name == states@[i].name
                        && out@[i].generics == states@[i].generics && out@[i].enum_name
                        == states@[i].enum_name && transits_resolved(
                        states@,
                        transitions@,
                        out@[i].transits@,
                        states@[i].enum_name@,
                    )
                &&& forall|j: int| 0 <= j < states@.len() ==> !tag_dup_at(states@, j)
                &&& forall|k: int|
                    0 <= k < transitions@.len() ==> !trans_defect(states@, transitions@, k)
            },
            Err(ValidationError::DuplicateStateTag { index }) => {
                &&& (index as int) < states@.len()
                &&& tag_dup_at(states@, index as int)
                &&& forall|j: int| 0 <= j < index ==> !tag_dup_at(states@, j)
            },
            Err(ValidationError::UnknownTransitionSource { index }) => {
                &&& forall|j: int| 0 <= j < states@.len() ==> !tag_dup_at(states@, j)
                &&& (index as int) < transitions@.len()
                &&& src_unknown(states@, transitions@, index as int)
                &&& forall|k: int|
                    0 <= k < index ==> !trans_defect(states@, transitions@, k)
            },
            Err(ValidationError::UnknownTransitionDestination { index }) => {
                &&& forall|j: int| 0 <= j < states@.len() ==> !tag_dup_at(states@, j)
                &&& (index as int) < transitions@.len()
                &&& dst_unknown(states@, transitions@, index as int)
                &&& !src_unknown(states@, transitions@, index as int)
                &&& forall|k: int|
                    0 <= k < index ==> !trans_defect(states@, transitions@, k)
            },
            Err(_) => false,
        },
{
    let ghost sts = states@;
    let n = states.len();
    let m = transitions.len();
    let mut j: usize = 0;
    while j < n
        invariant
            n == sts.len(),
            states@ == sts,
            j <= n,
            forall|j2: int| 0 <= j2 < j ==> !tag_dup_at(sts, j2),
        decreases n - j,
    {
        let mut i: usize = 0;
        while i < j
            invariant
                n == sts.len(),
                states@ == sts,
                i <= j < n,
                forall|j2: int| 0 <= j2 < j ==> !tag_dup_at(sts, j2),
                forall|i2: int| 0 <= i2 < i ==> sts[i2].enum_name@ != sts[j as int].enum_name@,
            decreases j - i,
        {
            if vec_eq(&states[i].enum_name, &states[j].enum_name) {
                proof {
                    assert(tag_dup_at(sts, j as int)) by {
                        assert((i as int) < (j as int) && sts[i as int].enum_name@ == sts[
                            j as int
                        ].enum_name@);
                    }
                }
                return Err(ValidationError::DuplicateStateTag { index: j });
            }
            i = i + 1;
        }
        j = j + 1;
    }
    let mut k: usize = 0;
    while k < m
        invariant
            n == sts.len(),
            states@ == sts,
            m == transitions@.len(),
            k <= m,
            forall|j2: int| 0 <= j2 < n ==> !tag_dup_at(sts, j2),
            forall|k2: int| 0 <= k2 < k ==> !trans_defect(sts, transitions@, k2),
        decreases m - k,
    {
        let mut i: usize = 0;
        let mut found = false;
        while i < n
            invariant
                n == sts.len(),
                states@ == sts,
                m == transitions@.len(),
                k < m,
                i <= n,
                !found ==> forall|i2: int|
                    0 <= i2 < i ==> sts[i2].enum_name@ != transitions@[k as int].src.enum_name@,
                found ==> declared_tag(sts, transitions@[k as int].src.enum_name@),
            decreases n - i,
        {
            if !found && vec_eq(&states[i].enum_name, &transitions[k].src.enum_name) {
                proof {
                    assert(declared_tag(sts, transitions@[k as int].src.enum_name@)) by {
                        assert((i as int) < sts.len() && sts[i as int].enum_name@
                            == transitions@[k as int].src.enum_name@);
                    }
                }
                found = true;
            }
            i = i + 1;
        }
        if !found {
            return Err(ValidationError::UnknownTransitionSource { index: k });
        }
        let mut i2: usize = 0;
        let mut dst_found = false;
        while i2 < n
            invariant
                n == sts.len(),
                states@ == sts,
                m == transitions@.len(),
                k < m,
                i2 <= n,
                !dst_found ==> forall|i3: int|
                    0 <= i3 < i2 ==> sts[i3].enum_name@ != transitions@[k as int].dst.enum_name@,
                dst_found ==> declared_tag(sts, transitions@[k as int].dst.enum_name@),
            decreases n - i2,
        {
            if !dst_found && vec_eq(&states[i2].enum_name, &transitions[k].dst.enum_name) {
                proof {
                    assert(declared_tag(sts, transitions@[k as int].dst.enum_name@)) by {
                        assert((i2 as int) < sts.len() && sts[i2 as int].enum_name@
                            == transitions@[k as int].dst.enum_name@);
                    }
                }
                dst_found = true;
            }
            i2 = i2 + 1;
        }
        if !dst_found {
            return Err(ValidationError::UnknownTransitionDestination { index: k });
        }
        k = k + 1;
    }
    let mut tags: Vec<Vec<u8>> = Vec::new();
    let mut t: usize = 0;
    while t < n
        invariant
            n == sts.len(),
            states@ == sts,
            t <= n,
            tags@.len() == t,
            forall|i: int| 0 <= i < t ==> (#[trigger] tags@[i])@ == sts[i].enum_name@,
        decreases n - t,
    {
        let mut copy: Vec<u8> = Vec::new();
        crate::types::push_all(&mut copy, &states[t].enum_name);
        tags.push(copy);
        t = t + 1;
    }
    let mut out: Vec<State> = Vec::new();
    let mut rest = states;
    while out.len() < n
        invariant
            n == sts.len(),
            m == transitions@.len(),
            tags@.len() == n,
            forall|i: int| 0 <= i < n ==> (#[trigger] tags@[i])@ == sts[i].enum_name@,
            out@.len() <= n,
            rest@ == sts.skip(out@.len() as int),
            forall|j2: int| 0 <= j2 < n ==> !tag_dup_at(sts, j2),
            forall|k2: int| 0 <= k2 < m ==> !trans_defect(sts, transitions@, k2),
            forall|i: int|
                0 <= i < out@.len() ==> (#[trigger] out@[i]).name == sts[i].name && out@[i].generics == sts[i].generics && out@[i].enum_name == sts[i].enum_name
                    && transits_resolved(sts, transitions@, out@[i].transits@, sts[i].enum_name@),
        decreases n - out@.len(),
    {
        let ghost i0 = out@.len() as int;
        proof {
            assert(rest@[0] == sts[i0]);
        }
        let st = rest.remove(0);
        proof {
            assert(rest@ =~= sts.skip(i0 + 1));
        }
        let mut tv: Vec<usize> = Vec::new();
        let mut k2: usize = 0;
        proof {
            assert(transitions@.take(0int) =~= Seq::<Transition>::empty());
        }
        while k2 < m
            invariant
                n == sts.len(),
                m == transitions@.len(),
                tags@.len() == n,
                forall|i: int| 0 <= i < n ==> (#[trigger] tags@[i])@ == sts[i].enum_name@,
                forall|k3: int| 0 <= k3 < m ==> !trans_defect(sts, transitions@, k3),
                k2 <= m,
                st.enum_name == sts[i0].enum_name,
                transits_resolved(
                    sts,
                    transitions@.take(k2 as int),
                    tv@,
                    st.enum_name@,
                ),
            decreases m - k2,
        {
            proof {
                assert(transitions@.take(k2 + 1).drop_last() =~= transitions@.take(k2 as int));
                assert(transitions@.take(k2 + 1).last() == transitions@[k2 as int]);
            }
            if vec_eq(&transitions[k2].src.enum_name, &st.enum_name) {
                let mut i3: usize = 0;
                let mut idx: usize = 0;
                let mut idx_found = false;
                while i3 < n
                    invariant
                        n == sts.len(),
                        m == transitions@.len(),
                        tags@.len() == n,
                        forall|i: int|
                            0 <= i < n ==> (#[trigger] tags@[i])@ == sts[i].enum_name@,
                        k2 < m,
                        i3 <= n,
                        !idx_found ==> forall|i4: int|
                            0 <= i4 < i3 ==> sts[i4].enum_name@ != transitions@[k2 as int].dst.enum_name@,
                        idx_found ==> (idx as int) < n && sts[idx as int].enum_name@
                            == transitions@[k2 as int].dst.enum_name@,
                    decreases n - i3,
                {
                    if !idx_found && vec_eq(&tags[i3], &transitions[k2].dst.enum_name) {
                        idx = i3;
                        idx_found = true;
                    }
                    i3 = i3 + 1;
                }
                if !idx_found {
                    proof {
                        assert(!trans_defect(sts, transitions@, k2 as int));
                        assert(declared_tag(sts, transitions@[k2 as int].dst.enum_name@));
                        assert(false);
                    }
                    return Err(ValidationError::UnknownTransitionDestination { index: k2 });
                }
                tv.push(idx);
            }
            k2 = k2 + 1;
        }
        proof {
            assert(transitions@.take(m as int) =~= transitions@);
        }
        let State { name, generics, enum_name, transits: _discarded } = st;
        out.push(State { name, generics, enum_name, transits: tv });
        proof {
            assert(out@.last().name == sts[i0].name);
        }
    }
    proof {
        assert(out@.len() == sts.len());
    }
    Ok(out)
}

/// Parses a state reference: an identifier with an optional bracketed
/// type-argument list, from which the dispatch tag is derived.
fn parse_state(s: &Vec<u8>, pos: usize) -> (r: Result<(State, usize), ParseError>)
    requires
        pos <= s@.len(),
    ensures
        match r {
            Ok((st, p)) => {
                &&& pos < p <= s@.len()
                &&& spec_parse_state(s@, pos as int) == Some((raw_of(st), p as int))
                &&& st.tag_consistent()
                &&& st.transits@ == Seq::<usize>::empty()
                &&& ascii_seq(st.name@)
                &&& st.name@.len() > 0
            },
            Err(e) => e.pos <= s@.len() && spec_parse_state(s@, pos as int) is None,
        },
{
    let (name, p1) = match parse_ident(s, pos) {
        Ok(v) => v,
        Err(e) => {
            return Err(e);
        },
    };
    let (generics, p2) = if p1 < s.len() && s[p1] == 60 {
        match parse_generics(s, p1) {
            Ok((g, p)) => (Some(g), p),
            Err(e) => {
                return Err(e);
            },
        }
    } else {
        (None, p1)
    };
    let enum_name = State::state_to_enum(&name, &generics);
    Ok((State { name, generics, enum_name, transits: Vec::new() }, p2))
}

/// Parses a transition: a source state, `=>`, a destination state.
fn parse_transition(s: &Vec<u8>, pos: usize) -> (r: Result<(Transition, usize), ParseError>)
    requires
        pos <= s@.len(),
    ensures
        match r {
            Ok((tr, p)) => {
                &&& pos < p <= s@.len()
                &&& spec_parse_edge(s@, pos as int) == Some((
                    RawEdge { src: raw_of(tr.src), dst: raw_of(tr.dst) },
                    p as int,
                ))
                &&& tr.src.tag_consistent()
                &&& tr.dst.tag_consistent()
            },
            Err(e) => e.pos <= s@.len() && spec_parse_edge(s@, pos as int) is None,
        },
{
    let (src, p) = match parse_state(s, pos) {
        Ok(v) => v,
        Err(e) => {
            return Err(e);
        },
    };
    let p = skip_ws(s, p);
    let p = match expect(s, p, 61) {
        Ok(v) => v,
        Err(e) => {
            return Err(e);
        },
    };
    let p = match expect(s, p, 62) {
        Ok(v) => v,
        Err(e) => {
            return Err(e);
        },
    };
    let p = skip_ws(s, p);
    let (dst, p) = match parse_state(s, p) {
        Ok(v) => v,
        Err(e) => {
            return Err(e);
        },
    };
    Ok((Transition { src, dst }, p))
}

/// Parses a message payload: an identifier with an optional bracketed
/// type-argument list — unless the opening bracket starts a poll arrow.
fn parse_message(s: &Vec<u8>, pos: usize) -> (r: Result<(Message, usize), ParseError>)
    requires
        pos <= s@.len(),
    ensures
        match r {
            Ok((msg, p)) => {
                &&& pos < p <= s@.len()
                &&& spec_parse_payload(s@, pos as int) == Some((
                    (msg.name@, generics_view(msg.generics)),
                    p as int,
                ))
                &&& ascii_seq(msg.name@)
                &&& msg.name@.len() > 0
                &&& match msg.generics {
                    Some(g) => ascii_seq(g@),
                    None => true,
                }
            },
            Err(e) => e.pos <= s@.len() && spec_parse_payload(s@, pos as int) is None,
        },
{
    let (name, p1) = match parse_ident(s, pos) {
        Ok(v) => v,
        Err(e) => {
            return Err(e);
        },
    };
    let open_bracket = p1 < s.len() && s[p1] == 60;
    let poll_arrow = if open_bracket {
        p1 + 1 < s.len() && s[p1 + 1] == 45
    } else {
        false
    };
    if open_bracket && !poll_arrow {
        match parse_generics(s, p1) {
            Ok((g, p)) => Ok((Message { name, generics: Some(g) }, p)),
            Err(e) => Err(e),
        }
    } else {
        Ok((Message { name, generics: None }, p1))
    }
}

/// Parses one message channel: a payload, a `->` (push) or `<-` (poll)
/// arrow, and the target state.
fn parse_state_message(s: &Vec<u8>, pos: usize) -> (r: Result<(StateMessage, usize), ParseError>)
    requires
        pos <= s@.len(),
    ensures
        match r {
            Ok((sm, p)) => {
                &&& pos < p <= s@.len()
                &&& spec_parse_channel(s@, pos as int) == Some((raw_channel_of(sm), p as int))
                &&& sm.state.tag_consistent()
            },
            Err(e) => e.pos <= s@.len() && spec_parse_channel(s@, pos as int) is None,
        },
{
    let (message, p) = match parse_message(s, pos) {
        Ok(v) => v,
        Err(e) => {
            return Err(e);
        },
    };
    let p = skip_ws(s, p);
    let dir_push = p < s.len() && s[p] == 45 && p + 1 < s.len() && s[p + 1] == 62;
    let dir_poll = p < s.len() && s[p] == 60 && p + 1 < s.len() && s[p + 1] == 45;
    if !dir_push && !dir_poll {
        return Err(ParseError { pos: p });
    }
    let p = p + 2;
    let p = skip_ws(s, p);
    let (state, p) = match parse_state(s, p) {
        Ok(v) => v,
        Err(e) => {
            return Err(e);
        },
    };
    let message_dir = if dir_push {
        MessageDir::Push(message)
    } else {
        MessageDir::Poll(message)
    };
    Ok((StateMessage { state, message: message_dir }, p))
}

/// Parses the error type of a fallible machine description: an identifier
/// with an optional bracketed type-argument list.
fn parse_error_type(s: &Vec<u8>, pos: usize) -> (r: Result<(ErrorType, usize), ParseError>)
    requires
        pos <= s@.len(),
    ensures
        match r {
            Ok((et, p)) => {
                &&& pos < p <= s@.len()
                &&& spec_parse_state(s@, pos as int) == Some((
                    RawState { name: et.error_name@, generics: generics_view(et.generics) },
                    p as int,
                ))
                &&& ascii_seq(et.error_name@)
                &&& et.error_name@.len() > 0
                &&& match et.generics {
                    Some(g) => ascii_seq(g@),
                    None => true,
                }
            },
            Err(e) => e.pos <= s@.len() && spec_parse_state(s@, pos as int) is None,
        },
{
    let (error_name, p1) = match parse_ident(s, pos) {
        Ok(v) => v,
        Err(e) => {
            return Err(e);
        },
    };
    if p1 < s.len() && s[p1] == 60 {
        match parse_generics(s, p1) {
            Ok((g, p)) => Ok((ErrorType { error_name, generics: Some(g) }, p)),
            Err(e) => Err(e),
        }
    } else {
        Ok((ErrorType { error_name, generics: None }, p1))
    }
}

/// Parses a comma-separated run of state references ending at `]`.
fn parse_state_items(s: &Vec<u8>, pos: usize) -> (r: Result<(Vec<State>, usize), ParseError>)
    requires
        pos <= s@.len(),
    ensures
        match r {
            Ok((sts, p)) => {
                &&& pos < p <= s@.len()
                &&& spec_state_items(s@, pos as int) == Some((
                    sts@.map_values(|st: State| raw_of(st)),
                    p as int,
                ))
                &&& forall|i: int|
                    0 <= i < sts@.len() ==> (#[trigger] sts@[i]).tag_consistent() && sts@[
                        i
                    ].transits@ == Seq::<usize>::empty()
            },
            Err(e) => e.pos <= s@.len() && spec_state_items(s@, pos as int) is None,
        },
    decreases s@.len() - pos,
{
    let (st, p1) = match parse_state(s, pos) {
        Ok(v) => v,
        Err(e) => {
            return Err(e);
        },
    };
    let p2 = skip_ws(s, p1);
    if p2 < s.len() && s[p2] == 44 {
        let p3 = skip_ws(s, p2 + 1);
        if p3 < s.len() && s[p3] == 93 {
            let mut out: Vec<State> = Vec::new();
            out.push(st);
            proof {
                assert(out@.map_values(|st2: State| raw_of(st2)) =~= seq![
                    raw_of(out@[0]),
                ]);
            }
            Ok((out, p3 + 1))
        } else {
            match parse_state_items(s, p3) {
                Ok((mut rest, pe)) => {
                    let ghost tail = rest@;
                    rest.insert(0, st);
                    proof {
                        assert(rest@.map_values(|st2: State| raw_of(st2)) =~= seq![
                            raw_of(rest@[0]),
                        ] + tail.map_values(|st2: State| raw_of(st2)));
                    }
                    Ok((rest, pe))
                },
                Err(e) => Err(e),
            }
        }
    } else if p2 < s.len() && s[p2] == 93 {
        let mut out: Vec<State> = Vec::new();
        out.push(st);
        proof {
            assert(out@.map_values(|st2: State| raw_of(st2)) =~= seq![raw_of(out@[0])]);
        }
        Ok((out, p2 + 1))
    } else {
        Err(ParseError { pos: p2 })
    }
}

/// Parses a bracketed, possibly empty state list.
fn parse_state_block(s: &Vec<u8>, pos: usize) -> (r: Result<(Vec<State>, usize), ParseError>)
    requires
        pos <= s@.len(),
    ensures
        match r {
            Ok((sts, p)) => {
                &&& pos < p <= s@.len()
                &&& spec_state_block(s@, pos as int) == Some((
                    sts@.map_values(|st: State| raw_of(st)),
                    p as int,
                ))
                &&& forall|i: int|
                    0 <= i < sts@.len() ==> (#[trigger] sts@[i]).tag_consistent() && sts@[
                        i
                    ].transits@ == Seq::<usize>::empty()
            },
            Err(e) => e.pos <= s@.len() && spec_state_block(s@, pos as int) is None,
        },
{
    if !(pos < s.len() && s[pos] == 91) {
        return Err(ParseError { pos });
    }
    let p0 = skip_ws(s, pos + 1);
    if p0 < s.len() && s[p0] == 93 {
        let out: Vec<State> = Vec::new();
        proof {
            assert(out@.map_values(|st2: State| raw_of(st2)) =~= Seq::<RawState>::empty());
        }
        Ok((out, p0 + 1))
    } else {
        parse_state_items(s, p0)
    }
}

/// Parses a comma-separated run of edges ending at `]`.
fn parse_edge_items(s: &Vec<u8>, pos: usize) -> (r: Result<(Vec<Transition>, usize), ParseError>)
    requires
        pos <= s@.len(),
    ensures
        match r {
            Ok((trs, p)) => {
                &&& pos < p <= s@.len()
                &&& spec_edge_items(s@, pos as int) == Some((
                    trs@.map_values(|t: Transition| raw_edge_of(t)),
                    p as int,
                ))
                &&& forall|k: int|
                    0 <= k < trs@.len() ==> (#[trigger] trs@[k]).src.tag_consistent() && trs@[
                        k
                    ].dst.tag_consistent()
            },
            Err(e) => e.pos <= s@.len() && spec_edge_items(s@, pos as int) is None,
        },
    decreases s@.len() - pos,
{
    let (tr, p1) = match parse_transition(s, pos) {
        Ok(v) => v,
        Err(e) => {
            return Err(e);
        },
    };
    let p2 = skip_ws(s, p1);
    if p2 < s.len() && s[p2] == 44 {
        let p3 = skip_ws(s, p2 + 1);
        if p3 < s.len() && s[p3] == 93 {
            let mut out: Vec<Transition> = Vec::new();
            out.push(tr);
            proof {
                assert(out@.map_values(|t: Transition| raw_edge_of(t)) =~= seq![
                    raw_edge_of(out@[0]),
                ]);
            }
            Ok((out, p3 + 1))
        } else {
            match parse_edge_items(s, p3) {
                Ok((mut rest, pe)) => {
                    let ghost tail = rest@;
                    rest.insert(0, tr);
                    proof {
                        assert(rest@.map_values(|t: Transition| raw_edge_of(t)) =~= seq![
                            raw_edge_of(rest@[0]),
                        ] + tail.map_values(|t: Transition| raw_edge_of(t)));
                    }
                    Ok((rest, pe))
                },
                Err(e) => Err(e),
            }
        }
    } else if p2 < s.len() && s[p2] == 93 {
        let mut out: Vec<Transition> = Vec::new();
        out.push(tr);
        proof {
            assert(out@.map_values(|t: Transition| raw_edge_of(t)) =~= seq![
                raw_edge_of(out@[0]),
            ]);
        }
        Ok((out, p2 + 1))
    } else {
        Err(ParseError { pos: p2 })
    }
}

/// Parses a bracketed, possibly empty edge list.
fn parse_edge_block(s: &Vec<u8>, pos: usize) -> (r: Result<(Vec<Transition>, usize), ParseError>)
    requires
        pos <= s@.len(),
    ensures
        match r {
            Ok((trs, p)) => {
                &&& pos < p <= s@.len()
                &&& spec_edge_block(s@, pos as int) == Some((
                    trs@.map_values(|t: Transition| raw_edge_of(t)),
                    p as int,
                ))
                &&& forall|k: int|
                    0 <= k < trs@.len() ==> (#[trigger] trs@[k]).src.tag_consistent() && trs@[
                        k
                    ].dst.tag_consistent()
            },
            Err(e) => e.pos <= s@.len() && spec_edge_block(s@, pos as int) is None,
        },
{
    if !(pos < s.len() && s[pos] == 91) {
        return Err(ParseError { pos });
    }
    let p0 = skip_ws(s, pos + 1);
    if p0 < s.len() && s[p0] == 93 {
        let out: Vec<Transition> = Vec::new();
        proof {
            assert(out@.map_values(|t: Transition| raw_edge_of(t)) =~= Seq::<RawEdge>::empty());
        }
        Ok((out, p0 + 1))
    } else {
        parse_edge_items(s, p0)
    }
}

/// Parses a comma-separated run of message channels ending at `]`.
fn parse_channel_items(s: &Vec<u8>, pos: usize) -> (r: Result<
    (Vec<StateMessage>, usize),
    ParseError,
>)
    requires
        pos <= s@.len(),
    ensures
        match r {
            Ok((cs, p)) => {
                &&& pos < p <= s@.len()
                &&& spec_channel_items(s@, pos as int) == Some((
                    cs@.map_values(|c: StateMessage| raw_channel_of(c)),
                    p as int,
                ))
                &&& forall|k: int|
                    0 <= k < cs@.len() ==> (#[trigger] cs@[k]).state.tag_consistent()
            },
            Err(e) => e.pos <= s@.len() && spec_channel_items(s@, pos as int) is None,
        },
    decreases s@.len() - pos,
{
    let (c, p1) = match parse_state_message(s, pos) {
        Ok(v) => v,
        Err(e) => {
            return Err(e);
        },
    };
    let p2 = skip_ws(s, p1);
    if p2 < s.len() && s[p2] == 44 {
        let p3 = skip_ws(s, p2 + 1);
        if p3 < s.len() && s[p3] == 93 {
            let mut out: Vec<StateMessage> = Vec::new();
            out.push(c);
            proof {
                assert(out@.map_values(|c2: StateMessage| raw_channel_of(c2)) =~= seq![
                    raw_channel_of(out@[0]),
                ]);
            }
            Ok((out, p3 + 1))
        } else {
            match parse_channel_items(s, p3) {
                Ok((mut rest, pe)) => {
                    let ghost tail = rest@;
                    rest.insert(0, c);
                    proof {
                        assert(rest@.map_values(|c2: StateMessage| raw_channel_of(c2)) =~= seq![
                            raw_channel_of(rest@[0]),
                        ] + tail.map_values(|c2: StateMessage| raw_channel_of(c2)));
                    }
                    Ok((rest, pe))
                },
                Err(e) => Err(e),
            }
        }
    } else if p2 < s.len() && s[p2] == 93 {
        let mut out: Vec<StateMessage> = Vec::new();
        out.push(c);
        proof {
            assert(out@.map_values(|c2: StateMessage| raw_channel_of(c2)) =~= seq![
                raw_channel_of(out@[0]),
            ]);
        }
        Ok((out, p2 + 1))
    } else {
        Err(ParseError { pos: p2 })
    }
}

/// Parses a bracketed, possibly empty channel list.
fn parse_channel_block(s: &Vec<u8>, pos: usize) -> (r: Result<
    (Vec<StateMessage>, usize),
    ParseError,
>)
    requires
        pos <= s@.len(),
    ensures
        match r {
            Ok((cs, p)) => {
                &&& pos < p <= s@.len()
                &&& spec_channel_block(s@, pos as int) == Some((
                    cs@.map_values(|c: StateMessage| raw_channel_of(c)),
                    p as int,
                ))
                &&& forall|k: int|
                    0 <= k < cs@.len() ==> (#[trigger] cs@[k]).state.tag_consistent()
            },
            Err(e) => e.pos <= s@.len() && spec_channel_block(s@, pos as int) is None,
        },
{
    if !(pos < s.len() && s[pos] == 91) {
        return Err(ParseError { pos });
    }
    let p0 = skip_ws(s, pos + 1);
    if p0 < s.len() && s[p0] == 93 {
        let out: Vec<StateMessage> = Vec::new();
        proof {
            assert(out@.map_values(|c2: StateMessage| raw_channel_of(c2)) =~= Seq::<
                RawChannel,
            >::empty());
        }
        Ok((out, p0 + 1))
    } else {
        parse_channel_items(s, p0)
    }
}

/// Parses the shared head of both machine grammars: the machine name, the
/// initial state, the bracketed state list and the bracketed edge list.
fn parse_machine_core(s: &Vec<u8>, pos: usize) -> (r: Result<
    ((Vec<u8>, State, Vec<State>, Vec<Transition>), usize),
    ParseError,
>)
    requires
        pos <= s@.len(),
    ensures
        match r {
            Ok(((name, init, states, trs), p)) => {
                &&& pos < p <= s@.len()
                &&& spec_machine_text(s@, pos as int) == Some((
                    RawMachineText {
                        name: name@,
                        init: raw_of(init),
                        states: states@.map_values(|st: State| raw_of(st)),
                        edges: trs@.map_values(|t: Transition| raw_edge_of(t)),
                    },
                    p as int,
                ))
                &&& ascii_seq(name@)
                &&& name@.len() > 0
                &&& init.tag_consistent()
                &&& forall|i: int|
                    0 <= i < states@.len() ==> (#[trigger] states@[i]).tag_consistent()
                        && states@[i].transits@ == Seq::<usize>::empty()
                &&& forall|k: int|
                    0 <= k < trs@.len() ==> (#[trigger] trs@[k]).src.tag_consistent() && trs@[
                        k
                    ].dst.tag_consistent()
            },
            Err(e) => e.pos <= s@.len() && spec_machine_text(s@, pos as int) is None,
        },
{
    let p0 = skip_ws(s, pos);
    let (name, p1) = match parse_ident(s, p0) {
        Ok(v) => v,
        Err(e) => {
            return Err(e);
        },
    };
    let p2 = skip_ws(s, p1);
    if !(p2 < s.len() && s[p2] == 44) {
        return Err(ParseError { pos: p2 });
    }
    let p3 = skip_ws(s, p2 + 1);
    let (init, p4) = match parse_state(s, p3) {
        Ok(v) => v,
        Err(e) => {
            return Err(e);
        },
    };
    let p5 = skip_ws(s, p4);
    if !(p5 < s.len() && s[p5] == 44) {
        return Err(ParseError { pos: p5 });
    }
    let p6 = skip_ws(s, p5 + 1);
    let (states, p7) = match parse_state_block(s, p6) {
        Ok(v) => v,
        Err(e) => {
            return Err(e);
        },
    };
    let p8 = skip_ws(s, p7);
    if !(p8 < s.len() && s[p8] == 44) {
        return Err(ParseError { pos: p8 });
    }
    let p9 = skip_ws(s, p8 + 1);
    let (trs, p10) = match parse_edge_block(s, p9) {
        Ok(v) => v,
        Err(e) => {
            return Err(e);
        },
    };
    Ok(((name, init, states, trs), p10))
}

impl Machine {
    /// A validated machine: the initial state and every transition index
    /// name a declared state, the error state (when present) does too, and
    /// no two states share a dispatch tag.
    pub open spec fn wf(self) -> bool {
        &&& (self.init as int) < self.states@.len()
        &&& forall|i: int, k: int|
            0 <= i < self.states@.len() && 0 <= k < self.states@[i].transits@.len() ==> ((
            #[trigger] self.states@[i].transits@[k]) as int) < self.states@.len()
        &&& forall|j: int| 0 <= j < self.states@.len() ==> !tag_dup_at(self.states@, j)
        &&& match self.error_state {
            Some(e) => (e as int) < self.states@.len(),
            None => true,
        }
    }
}

/// A resolved state list inherits well-formedness from the validation:
/// its tags are still duplicate-free and its transition indices in range.
proof fn lemma_resolved_wf(sts: Seq<State>, trs: Seq<Transition>, out: Seq<State>)
    requires
        out.len() == sts.len(),
        forall|i: int|
            0 <= i < sts.len() ==> (#[trigger] out[i]).name == sts[i].name && out[i].generics
                == sts[i].generics && out[i].enum_name == sts[i].enum_name && transits_resolved(
                sts,
                trs,
                out[i].transits@,
                sts[i].enum_name@,
            ),
        forall|j: int| 0 <= j < sts.len() ==> !tag_dup_at(sts, j),
    ensures
        forall|j: int| 0 <= j < out.len() ==> !tag_dup_at(out, j),
        forall|i: int, k: int|
            0 <= i < out.len() && 0 <= k < out[i].transits@.len() ==> ((#[trigger] out[
                i
            ].transits@[k]) as int) < out.len(),
{
    assert forall|j: int| 0 <= j < out.len() implies !tag_dup_at(out, j) by {
        if tag_dup_at(out, j) {
            let i = choose|i: int| 0 <= i < j && out[i].enum_name@ == out[j].enum_name@;
            assert(sts[i].enum_name@ == sts[j].enum_name@);
            assert(tag_dup_at(sts, j));
        }
    }
    assert forall|i: int, k: int|
        0 <= i < out.len() && 0 <= k < out[i].transits@.len() implies ((#[trigger] out[
        i
    ].transits@[k]) as int) < out.len() by {
        assert(transits_resolved(sts, trs, out[i].transits@, sts[i].enum_name@));
    }
}

impl Machine {
    /// Parses and validates a non-fallible machine description:
    /// `Name, InitialState, [State, ...], [Source => Destination, ...]`.
    ///
    /// Succeeds exactly when the whole text follows the grammar
    /// ([`machine_description`]) and validation passes: distinct dispatch
    /// tags, every edge endpoint declared, the initial state declared.
    /// The machine then lists the declared states in declaration order,
    /// each with the text's edges out of it resolved to state indices in
    /// declaration order, and `init` indexes the state the initial
    /// reference names.
    pub fn parse(text: &Vec<u8>) -> (r: Result<Machine, DefinitionError>)
        ensures
            match r {
                Ok(m) => match machine_description(text@) {
                    Some(raw) => {
                        &&& m.name@ == raw.name
                        &&& m.enum_name@ == m.name@ + crate::types::union_suffix()
                        &&& m.states@.len() == raw.states.len()
                        &&& forall|i: int|
                            0 <= i < raw.states.len() ==> (#[trigger] m.states@[i]).name@
                                == raw.states[i].name && generics_view(m.states@[i].generics)
                                == raw.states[i].generics && m.states@[i].tag_consistent()
                                && raw_transits_resolved(
                                m.states@,
                                raw.edges,
                                m.states@[i].transits@,
                                m.states@[i].enum_name@,
                            )
                        &&& forall|j: int|
                            0 <= j < raw.states.len() ==> !raw_dup_at(raw.states, j)
                        &&& forall|k: int|
                            0 <= k < raw.edges.len() ==> !raw_defect(raw.states, raw.edges, k)
                        &&& (m.init as int) < m.states@.len()
                        &&& m.states@[m.init as int].enum_name@ == raw_tag(raw.init)
                        &&& m.wf()
                        &&& m.mode == Mode::NonFallible
                        &&& m.error_state is None
                        &&& m.custom_error is None
                        &&& m.sfsm_error@ == crate::types::error_kind_name(Mode::NonFallible)
                        &&& crate::types::bindings_match(
                            m.trait_definitions,
                            Mode::NonFallible,
                        )
                        &&& ascii_seq(m.name@)
                        &&& m.name@.len() > 0
                    },
                    None => false,
                },
                Err(DefinitionError::Parse(_)) => machine_description(text@) is None,
                Err(DefinitionError::Validation(v)) => match machine_description(text@) {
                    Some(raw) => match v {
                        ValidationError::DuplicateStateTag { index } => {
                            &&& (index as int) < raw.states.len()
                            &&& raw_dup_at(raw.states, index as int)
                            &&& forall|j: int| 0 <= j < index ==> !raw_dup_at(raw.states, j)
                        },
                        ValidationError::UnknownTransitionSource { index } => {
                            &&& forall|j: int|
                                0 <= j < raw.states.len() ==> !raw_dup_at(raw.states, j)
                            &&& (index as int) < raw.edges.len()
                            &&& raw_src_unknown(raw.states, raw.edges, index as int)
                            &&& forall|k: int|
                                0 <= k < index ==> !raw_defect(raw.states, raw.edges, k)
                        },
                        ValidationError::UnknownTransitionDestination { index } => {
                            &&& forall|j: int|
                                0 <= j < raw.states.len() ==> !raw_dup_at(raw.states, j)
                            &&& (index as int) < raw.edges.len()
                            &&& raw_dst_unknown(raw.states, raw.edges, index as int)
                            &&& !raw_src_unknown(raw.states, raw.edges, index as int)
                            &&& forall|k: int|
                                0 <= k < index ==> !raw_defect(raw.states, raw.edges, k)
                        },
                        ValidationError::UnknownInitialState => {
                            &&& forall|j: int|
                                0 <= j < raw.states.len() ==> !raw_dup_at(raw.states, j)
                            &&& forall|k: int|
                                0 <= k < raw.edges.len() ==> !raw_defect(
                                    raw.states,
                                    raw.edges,
                                    k,
                                )
                            &&& !raw_declared(raw.states, raw_tag(raw.init))
                        },
                        _ => false,
                    },
                    None => false,
                },
            },
    {
        let (core, p) = match parse_machine_core(text, 0) {
            Ok(v) => v,
            Err(e) => {
                return Err(DefinitionError::Parse(e));
            },
        };
        let pend = skip_ws(text, p);
        if pend != text.len() {
            return Err(DefinitionError::Parse(ParseError { pos: pend }));
        }
        let (name, init_ref, states, trs) = core;
        let ghost sts = states@;
        let ghost raw = RawMachineText {
            name: name@,
            init: raw_of(init_ref),
            states: sts.map_values(|st: State| raw_of(st)),
            edges: trs@.map_values(|t: Transition| raw_edge_of(t)),
        };
        proof {
            assert(machine_description(text@) == Some(raw));
            lemma_validation_bridge(sts, trs@, raw.states, raw.edges);
        }
        let resolved = match resolve_transits(states, &trs) {
            Ok(v) => v,
            Err(e) => {
                return Err(DefinitionError::Validation(e));
            },
        };
        proof {
            lemma_resolved_wf(sts, trs@, resolved@);
        }
        let n = resolved.len();
        let mut i: usize = 0;
        let mut init_idx: usize = 0;
        let mut found = false;
        while i < n
            invariant
                n == resolved@.len(),
                i <= n,
                found ==> (init_idx as int) < n && resolved@[init_idx as int].enum_name@
                    == init_ref.enum_name@,
                !found ==> forall|i2: int|
                    0 <= i2 < i ==> resolved@[i2].enum_name@ != init_ref.enum_name@,
            decreases n - i,
        {
            if !found && vec_eq(&resolved[i].enum_name, &init_ref.enum_name) {
                init_idx = i;
                found = true;
            }
            i = i + 1;
        }
        if !found {
            proof {
                assert(raw_tag(raw.init) == init_ref.enum_name@);
                assert(!raw_declared(raw.states, raw_tag(raw.init))) by {
                    if raw_declared(raw.states, raw_tag(raw.init)) {
                        let w = choose|w: int|
                            0 <= w < raw.states.len() && raw_tag(raw.states[w]) == raw_tag(
                                raw.init,
                            );
                        assert(declared_tag(sts, raw_tag(raw.init)));
                        let w2 = choose|w2: int|
                            0 <= w2 < sts.len() && sts[w2].enum_name@ == raw_tag(raw.init);
                        assert(resolved@[w2].enum_name@ == init_ref.enum_name@);
                    }
                }
            }
            return Err(DefinitionError::Validation(ValidationError::UnknownInitialState));
        }
        let enum_name = Machine::enum_name(&name);
        let m = Machine {
            name,
            init: init_idx,
            states: resolved,
            enum_name,
            sfsm_error: crate::types::error_name_for(Mode::NonFallible),
            custom_error: None,
            trait_definitions: TraitDefinitions::for_mode(Mode::NonFallible),
            mode: Mode::NonFallible,
            error_state: None,
        };
        proof {
            assert(raw_tag(raw.init) == init_ref.enum_name@);
            assert forall|i2: int| 0 <= i2 < raw.states.len() implies (#[trigger] m.states@[
                i2
            ]).name@ == raw.states[i2].name && generics_view(m.states@[i2].generics)
                == raw.states[i2].generics && m.states@[i2].tag_consistent()
                && raw_transits_resolved(
                m.states@,
                raw.edges,
                m.states@[i2].transits@,
                m.states@[i2].enum_name@,
            ) by {
                assert(raw.states[i2] == raw_of(sts[i2]));
                assert(m.states@[i2].name == sts[i2].name);
                assert(m.states@[i2].generics == sts[i2].generics);
                assert(m.states@[i2].enum_name == sts[i2].enum_name);
                lemma_transit_tags_bridge(m.states@[i2].enum_name@, trs@, raw.edges);
                assert(transits_resolved(
                    sts,
                    trs@,
                    m.states@[i2].transits@,
                    sts[i2].enum_name@,
                ));
            }
        }
        Ok(m)
    }
}

impl TryMachine {
    /// Parses and validates a fallible machine description:
    /// `Name, InitialState, [State, ...], [Source => Destination, ...],
    /// ErrorType, ErrorState`.
    ///
    /// Succeeds exactly when the whole text follows the grammar
    /// ([`try_machine_description`]) and validation passes, which here
    /// also requires the error state to be declared.  The machine is the
    /// non-fallible parse retagged: fallible mode, the `try_`-prefixed
    /// hook names, `error_state` indexing the state the error reference
    /// names, and `custom_error` carrying the written error type in
    /// angle brackets.
    pub fn parse(text: &Vec<u8>) -> (r: Result<TryMachine, DefinitionError>)
        ensures
            match r {
                Ok(tm) => match try_machine_description(text@) {
                    Some((raw, etype, eref)) => {
                        let m = tm.state_machine;
                        &&& m.name@ == raw.name
                        &&& m.enum_name@ == m.name@ + crate::types::union_suffix()
                        &&& m.states@.len() == raw.states.len()
                        &&& forall|i: int|
                            0 <= i < raw.states.len() ==> (#[trigger] m.states@[i]).name@
                                == raw.states[i].name && generics_view(m.states@[i].generics)
                                == raw.states[i].generics && m.states@[i].tag_consistent()
                                && raw_transits_resolved(
                                m.states@,
                                raw.edges,
                                m.states@[i].transits@,
                                m.states@[i].enum_name@,
                            )
                        &&& forall|j: int|
                            0 <= j < raw.states.len() ==> !raw_dup_at(raw.states, j)
                        &&& forall|k: int|
                            0 <= k < raw.edges.len() ==> !raw_defect(raw.states, raw.edges, k)
                        &&& (m.init as int) < m.states@.len()
                        &&& m.states@[m.init as int].enum_name@ == raw_tag(raw.init)
                        &&& m.error_state matches Some(e) && (e as int) < m.states@.len()
                            && m.states@[e as int].enum_name@ == raw_tag(eref)
                        &&& m.custom_error matches Some(ce) && ce@ == seq![60u8] + etype.name
                            + (match etype.generics {
                            Some(g) => g,
                            None => Seq::<u8>::empty(),
                        }) + seq![62u8]
                        &&& m.wf()
                        &&& m.mode == Mode::Fallible
                        &&& m.sfsm_error@ == crate::types::error_kind_name(Mode::Fallible)
                        &&& crate::types::bindings_match(m.trait_definitions, Mode::Fallible)
                        &&& ascii_seq(m.name@)
                        &&& m.name@.len() > 0
                    },
                    None => false,
                },
                Err(DefinitionError::Parse(_)) => try_machine_description(text@) is None,
                Err(DefinitionError::Validation(v)) => match try_machine_description(text@) {
                    Some((raw, etype, eref)) => match v {
                        ValidationError::DuplicateStateTag { index } => {
                            &&& (index as int) < raw.states.len()
                            &&& raw_dup_at(raw.states, index as int)
                            &&& forall|j: int| 0 <= j < index ==> !raw_dup_at(raw.states, j)
                        },
                        ValidationError::UnknownTransitionSource { index } => {
                            &&& forall|j: int|
                                0 <= j < raw.states.len() ==> !raw_dup_at(raw.states, j)
                            &&& (index as int) < raw.edges.len()
                            &&& raw_src_unknown(raw.states, raw.edges, index as int)
                            &&& forall|k: int|
                                0 <= k < index ==> !raw_defect(raw.states, raw.edges, k)
                        },
                        ValidationError::UnknownTransitionDestination { index } => {
                            &&& forall|j: int|
                                0 <= j < raw.states.len() ==> !raw_dup_at(raw.states, j)
                            &&& (index as int) < raw.edges.len()
                            &&& raw_dst_unknown(raw.states, raw.edges, index as int)
                            &&& !raw_src_unknown(raw.states, raw.edges, index as int)
                            &&& forall|k: int|
                                0 <= k < index ==> !raw_defect(raw.states, raw.edges, k)
                        },
                        ValidationError::UnknownInitialState => {
                            &&& forall|j: int|
                                0 <= j < raw.states.len() ==> !raw_dup_at(raw.states, j)
                            &&& forall|k: int|
                                0 <= k < raw.edges.len() ==> !raw_defect(
                                    raw.states,
                                    raw.edges,
                                    k,
                                )
                            &&& !raw_declared(raw.states, raw_tag(raw.init))
                        },
                        ValidationError::UnknownErrorState => {
                            &&& forall|j: int|
                                0 <= j < raw.states.len() ==> !raw_dup_at(raw.states, j)
                            &&& forall|k: int|
                                0 <= k < raw.edges.len() ==> !raw_defect(
                                    raw.states,
                                    raw.edges,
                                    k,
                                )
                            &&& raw_declared(raw.states, raw_tag(raw.init))
                            &&& !raw_declared(raw.states, raw_tag(eref))
                        },
                        _ => false,
                    },
                    None => false,
                },
            },
    {
        let (core, p) = match parse_machine_core(text, 0) {
            Ok(v) => v,
            Err(e) => {
                return Err(DefinitionError::Parse(e));
            },
        };
        let p = skip_ws(text, p);
        let p = match expect(text, p, 44) {
            Ok(v) => v,
            Err(e) => {
                return Err(DefinitionError::Parse(e));
            },
        };
        let p = skip_ws(text, p);
        let (error_type, p) = match parse_error_type(text, p) {
            Ok(v) => v,
            Err(e) => {
                return Err(DefinitionError::Parse(e));
            },
        };
        let p = skip_ws(text, p);
        let p = match expect(text, p, 44) {
            Ok(v) => v,
            Err(e) => {
                return Err(DefinitionError::Parse(e));
            },
        };
        let p = skip_ws(text, p);
        let (error_ref, p) = match parse_state(text, p) {
            Ok(v) => v,
            Err(e) => {
                return Err(DefinitionError::Parse(e));
            },
        };
        let pend = skip_ws(text, p);
        if pend != text.len() {
            return Err(DefinitionError::Parse(ParseError { pos: pend }));
        }
        let (name, init_ref, states, trs) = core;
        let ghost sts = states@;
        let ghost raw = RawMachineText {
            name: name@,
            init: raw_of(init_ref),
            states: sts.map_values(|st: State| raw_of(st)),
            edges: trs@.map_values(|t: Transition| raw_edge_of(t)),
        };
        let ghost etype_r = RawState {
            name: error_type.error_name@,
            generics: generics_view(error_type.generics),
        };
        let ghost eref_r = raw_of(error_ref);
        proof {
            assert(try_machine_description(text@) == Some((raw, etype_r, eref_r)));
            lemma_validation_bridge(sts, trs@, raw.states, raw.edges);
        }
        let resolved = match resolve_transits(states, &trs) {
            Ok(v) => v,
            Err(e) => {
                return Err(DefinitionError::Validation(e));
            },
        };
        proof {
            lemma_resolved_wf(sts, trs@, resolved@);
        }
        let n = resolved.len();
        let mut i: usize = 0;
        let mut init_idx: usize = 0;
        let mut found = false;
        while i < n
            invariant
                n == resolved@.len(),
                i <= n,
                found ==> (init_idx as int) < n && resolved@[init_idx as int].enum_name@
                    == init_ref.enum_name@,
                !found ==> forall|i3: int|
                    0 <= i3 < i ==> resolved@[i3].enum_name@ != init_ref.enum_name@,
            decreases n - i,
        {
            if !found && vec_eq(&resolved[i].enum_name, &init_ref.enum_name) {
                init_idx = i;
                found = true;
            }
            i = i + 1;
        }
        if !found {
            proof {
                assert(raw_tag(raw.init) == init_ref.enum_name@);
                assert(!raw_declared(raw.states, raw_tag(raw.init))) by {
                    if raw_declared(raw.states, raw_tag(raw.init)) {
                        assert(declared_tag(sts, raw_tag(raw.init)));
                        let w2 = choose|w2: int|
                            0 <= w2 < sts.len() && sts[w2].enum_name@ == raw_tag(raw.init);
                        assert(resolved@[w2].enum_name@ == init_ref.enum_name@);
                    }
                }
            }
            return Err(DefinitionError::Validation(ValidationError::UnknownInitialState));
        }
        let mut i2: usize = 0;
        let mut err_idx: usize = 0;
        let mut err_found = false;
        while i2 < n
            invariant
                n == resolved@.len(),
                i2 <= n,
                err_found ==> (err_idx as int) < n && resolved@[err_idx as int].enum_name@
                    == error_ref.enum_name@,
                !err_found ==> forall|i3: int|
                    0 <= i3 < i2 ==> resolved@[i3].enum_name@ != error_ref.enum_name@,
            decreases n - i2,
        {
            if !err_found && vec_eq(&resolved[i2].enum_name, &error_ref.enum_name) {
                err_idx = i2;
                err_found = true;
            }
            i2 = i2 + 1;
        }
        if !err_found {
            proof {
                assert(raw_tag(raw.init) == init_ref.enum_name@);
                assert(raw_declared(raw.states, raw_tag(raw.init))) by {
                    assert(sts[init_idx as int].enum_name@ == raw_tag(raw.init));
                    assert(raw_tag(raw.states[init_idx as int]) == raw_tag(raw.init));
                }
                assert(raw_tag(eref_r) == error_ref.enum_name@);
                assert(!raw_declared(raw.states, raw_tag(eref_r))) by {
                    if raw_declared(raw.states, raw_tag(eref_r)) {
                        assert(declared_tag(sts, raw_tag(eref_r)));
                        let w2 = choose|w2: int|
                            0 <= w2 < sts.len() && sts[w2].enum_name@ == raw_tag(eref_r);
                        assert(resolved@[w2].enum_name@ == error_ref.enum_name@);
                    }
                }
            }
            return Err(DefinitionError::Validation(ValidationError::UnknownErrorState));
        }
        let mut custom: Vec<u8> = Vec::new();
        custom.push(60);
        crate::types::push_all(&mut custom, &error_type.error_name);
        match &error_type.generics {
            Some(g) => {
                crate::types::push_all(&mut custom, g);
            },
            None => {},
        }
        custom.push(62);
        proof {
            assert(custom@ =~= seq![60u8] + etype_r.name + (match etype_r.generics {
                Some(g) => g,
                None => Seq::<u8>::empty(),
            }) + seq![62u8]);
        }
        let enum_name = Machine::enum_name(&name);
        let m = Machine {
            name,
            init: init_idx,
            states: resolved,
            enum_name,
            sfsm_error: crate::types::error_name_for(Mode::Fallible),
            custom_error: Some(custom),
            trait_definitions: TraitDefinitions::for_mode(Mode::Fallible),
            mode: Mode::Fallible,
            error_state: Some(err_idx),
        };
        proof {
            assert(raw_tag(raw.init) == init_ref.enum_name@);
            assert(raw_tag(eref_r) == error_ref.enum_name@);
            assert forall|i3: int| 0 <= i3 < raw.states.len() implies (#[trigger] m.states@[
                i3
            ]).name@ == raw.states[i3].name && generics_view(m.states@[i3].generics)
                == raw.states[i3].generics && m.states@[i3].tag_consistent()
                && raw_transits_resolved(
                m.states@,
                raw.edges,
                m.states@[i3].transits@,
                m.states@[i3].enum_name@,
            ) by {
                assert(raw.states[i3] == raw_of(sts[i3]));
                assert(m.states@[i3].name == sts[i3].name);
                assert(m.states@[i3].generics == sts[i3].generics);
                assert(m.states@[i3].enum_name == sts[i3].enum_name);
                lemma_transit_tags_bridge(m.states@[i3].enum_name@, trs@, raw.edges);
                assert(transits_resolved(
                    sts,
                    trs@,
                    m.states@[i3].transits@,
                    sts[i3].enum_name@,
                ));
            }
        }
        Ok(TryMachine { state_machine: m })
    }
}

impl Messages {
    /// Parses a messages description:
    /// `Name, [Payload -> State, ..., Payload <- State, ...]`, where `->`
    /// pushes into the state and `<-` polls from it.
    ///
    /// Succeeds exactly when the whole text follows the grammar
    /// ([`messages_description`]); the result then lists the text's
    /// channels in declaration order, `->` as a push and `<-` as a poll,
    /// without deduplication.
    pub fn parse(text: &Vec<u8>) -> (r: Result<Messages, DefinitionError>)
        ensures
            match r {
                Ok(ms) => match messages_description(text@) {
                    Some((rname, chans)) => {
                        &&& ms.name@ == rname
                        &&& ms.enum_name@ == ms.name@ + crate::types::union_suffix()
                        &&& ms.messages@.len() == chans.len()
                        &&& forall|k: int|
                            0 <= k < chans.len() ==> raw_channel_of(
                                #[trigger] ms.messages@[k],
                            ) == chans[k]
                        &&& forall|k: int|
                            0 <= k < ms.messages@.len() ==> (#[trigger] ms.messages@[
                                k
                            ]).state.tag_consistent()
                        &&& ascii_seq(ms.name@)
                        &&& ms.name@.len() > 0
                    },
                    None => false,
                },
                Err(DefinitionError::Parse(_)) => messages_description(text@) is None,
                Err(DefinitionError::Validation(_)) => false,
            },
    {
        let p0 = skip_ws(text, 0);
        let (name, p1) = match parse_ident(text, p0) {
            Ok(v) => v,
            Err(e) => {
                return Err(DefinitionError::Parse(e));
            },
        };
        let p2 = skip_ws(text, p1);
        if !(p2 < text.len() && text[p2] == 44) {
            return Err(DefinitionError::Parse(ParseError { pos: p2 }));
        }
        let p3 = skip_ws(text, p2 + 1);
        let (messages, p4) = match parse_channel_block(text, p3) {
            Ok(v) => v,
            Err(e) => {
                return Err(DefinitionError::Parse(e));
            },
        };
        let pend = skip_ws(text, p4);
        if pend != text.len() {
            return Err(DefinitionError::Parse(ParseError { pos: pend }));
        }
        let enum_name = Machine::enum_name(&name);
        Ok(Messages { name, enum_name, messages })
    }

    /// Validates the channels against a machine: the names must match and
    /// every channel's target must be a declared state.  On success the
    /// result lists, per channel in declaration order, the target state's
    /// index.
    pub fn validate(&self, machine: &Machine) -> (r: Result<Vec<usize>, ValidationError>)
        ensures
            match r {
                Ok(idxs) => {
                    &&& self.name@ == machine.name@
                    &&& idxs@.len() == self.messages@.len()
                    &&& forall|k: int|
                        0 <= k < self.messages@.len() ==> ((#[trigger] idxs@[k]) as int)
                            < machine.states@.len() && machine.states@[
                            idxs@[k] as int
                        ].enum_name@ == self.messages@[k].state.enum_name@
                },
                Err(ValidationError::MachineNameMismatch) => self.name@ != machine.name@,
                Err(ValidationError::UnknownMessageState { index }) => {
                    &&& self.name@ == machine.name@
                    &&& (index as int) < self.messages@.len()
                    &&& !declared_tag(
                        machine.states@,
                        self.messages@[index as int].state.enum_name@,
                    )
                    &&& forall|k: int|
                        0 <= k < index ==> declared_tag(
                            machine.states@,
                            (#[trigger] self.messages@[k]).state.enum_name@,
                        )
                },
                Err(_) => false,
            },
    {
        if !vec_eq(&self.name, &machine.name) {
            return Err(ValidationError::MachineNameMismatch);
        }
        let m = self.messages.len();
        let n = machine.states.len();
        let mut idxs: Vec<usize> = Vec::new();
        let mut k: usize = 0;
        while k < m
            invariant
                self.name@ == machine.name@,
                m == self.messages@.len(),
                n == machine.states@.len(),
                k <= m,
                idxs@.len() == k,
                forall|k2: int|
                    0 <= k2 < k ==> ((#[trigger] idxs@[k2]) as int) < machine.states@.len()
                        && machine.states@[idxs@[k2] as int].enum_name@ == self.messages@[
                        k2
                    ].state.enum_name@,
                forall|k2: int|
                    0 <= k2 < k ==> declared_tag(
                        machine.states@,
                        (#[trigger] self.messages@[k2]).state.enum_name@,
                    ),
            decreases m - k,
        {
            let mut i: usize = 0;
            let mut idx: usize = 0;
            let mut found = false;
            while i < n
                invariant
                    self.name@ == machine.name@,
                    m == self.messages@.len(),
                    n == machine.states@.len(),
                    k < m,
                    i <= n,
                    !found ==> forall|i2: int|
                        0 <= i2 < i ==> machine.states@[i2].enum_name@ != self.messages@[
                            k as int
                        ].state.enum_name@,
                    found ==> (idx as int) < n && machine.states@[idx as int].enum_name@
                        == self.messages@[k as int].state.enum_name@,
                decreases n - i,
            {
                if !found && vec_eq(&machine.states[i].enum_name, &self.messages[k].state.enum_name)
                {
                    idx = i;
                    found = true;
                }
                i = i + 1;
            }
            if !found {
                proof {
                    let tag = self.messages@[k as int].state.enum_name@;
                    assert(!declared_tag(machine.states@, tag)) by {
                        if declared_tag(machine.states@, tag) {
                            let i2 = choose|i2: int|
                                0 <= i2 < machine.states@.len() && machine.states@[
                                    i2
                                ].enum_name@ == tag;
                            assert(machine.states@[i2].enum_name@ != tag);
                        }
                    }
                }
                return Err(ValidationError::UnknownMessageState { index: k });
            }
            proof {
                assert(declared_tag(machine.states@, self.messages@[k as int].state.enum_name@))
                    by {
                    assert((idx as int) < machine.states@.len() && machine.states@[
                        idx as int
                    ].enum_name@ == self.messages@[k as int].state.enum_name@);
                }
            }
            idxs.push(idx);
            k = k + 1;
        }
        Ok(idxs)
    }
}

} // verus!
