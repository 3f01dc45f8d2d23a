//! The grammar model: the abstract syntax a machine description is parsed
//! into, and the derivation of dispatch tags.
//!
//! All identifier-like data is kept as ASCII bytes (`Vec<u8>`).  A state's
//! dispatch tag is its name, followed by the Pascal-cased text of its type
//! parameters (stripped of punctuation), followed by the fixed suffix
//! `State`; two instantiations of a generic state therefore map to distinct
//! tags.

use vstd::prelude::*;

verus! {

/// Operating mode of a machine: hook failures are either not representable,
/// or they reroute into a designated error state.
#[derive(Clone, Copy, Debug, PartialEq, Eq, Structural)]
pub enum Mode {
    /// Lifecycle hooks cannot fail.
    NonFallible,
    /// Lifecycle hooks return results; a failure moves the machine into the
    /// designated error state.
    Fallible,
}

/// The lifecycle trait and hook names that a machine's mode binds: plain
/// names for non-fallible machines, `try_`-prefixed ones for fallible
/// machines.
#[derive(Debug)]
pub struct TraitDefinitions {
    /// Name of the per-state lifecycle trait.
    pub state_trait: Vec<u8>,
    /// Name of the per-transition trait.
    pub transit_trait: Vec<u8>,
    /// Name of the entry hook.
    pub entry: Vec<u8>,
    /// Name of the exit hook.
    pub exit: Vec<u8>,
    /// Name of the execute hook.
    pub execute: Vec<u8>,
    /// Name of the transition action hook.
    pub action: Vec<u8>,
}

/// The error type named by a fallible machine description.
#[derive(Debug)]
pub struct ErrorType {
    /// The error type's identifier.
    pub error_name: Vec<u8>,
    /// Optional bracketed type arguments, kept verbatim.
    pub generics: Option<Vec<u8>>,
}

/// A state of the machine: its identity and, once the machine has been
/// resolved, the ordered list of its outgoing transitions.
#[derive(Debug)]
pub struct State {
    /// The state's identifier.
    pub name: Vec<u8>,
    /// Optional bracketed type-parameter text, kept verbatim (including the
    /// angle brackets).
    pub generics: Option<Vec<u8>>,
    /// The derived dispatch tag; unique per state within a machine.
    pub enum_name: Vec<u8>,
    /// Indices (into the machine's state list) of the destinations of this
    /// state's outgoing transitions, in declaration order.  Declaration
    /// order is the guard-evaluation priority.
    pub transits: Vec<usize>,
}

/// A transition edge as written in the description: a source state reference
/// and a destination state reference.
#[derive(Debug)]
pub struct Transition {
    /// The transition's source.
    pub src: State,
    /// The transition's destination.
    pub dst: State,
}

/// A parsed and validated machine description.
#[derive(Debug)]
pub struct Machine {
    /// The machine's name.
    pub name: Vec<u8>,
    /// Index of the initial state in `states`.
    pub init: usize,
    /// All declared states, each carrying its resolved outgoing transitions.
    pub states: Vec<State>,
    /// The derived name of the machine's state union.
    pub enum_name: Vec<u8>,
    /// The name of the machine's error type (`SfsmError` or
    /// `ExtendedSfsmError`).
    pub sfsm_error: Vec<u8>,
    /// For fallible machines, the user-declared error type text.
    pub custom_error: Option<Vec<u8>>,
    /// The hook-name bindings selected by `mode`.
    pub trait_definitions: TraitDefinitions,
    /// The machine's operating mode.
    pub mode: Mode,
    /// For fallible machines, the index of the designated error state in
    /// `states`.
    pub error_state: Option<usize>,
}

/// A machine description extended with error handling.
#[derive(Debug)]
pub struct TryMachine {
    /// The underlying machine, with mode, error state and hook bindings set
    /// for fallible operation.
    pub state_machine: Machine,
}

/// A message payload: the struct or enum used as the message.
#[derive(Debug)]
pub struct Message {
    /// The payload's identifier.
    pub name: Vec<u8>,
    /// Optional bracketed type arguments, kept verbatim.
    pub generics: Option<Vec<u8>>,
}

/// Direction of a message channel.
#[derive(Debug)]
pub enum MessageDir {
    /// The host pushes the payload into the target state.
    Push(Message),
    /// The host polls the payload from the target state.
    Poll(Message),
}

/// One message channel: a payload, its direction, and the state it targets.
#[derive(Debug)]
pub struct StateMessage {
    /// The targeted state reference.
    pub state: State,
    /// The payload and direction.
    pub message: MessageDir,
}

/// A parsed messages description for a named machine.
#[derive(Debug)]
pub struct Messages {
    /// The machine the channels belong to.
    pub name: Vec<u8>,
    /// The derived name of that machine's state union.
    pub enum_name: Vec<u8>,
    /// All declared channels, in declaration order.
    pub messages: Vec<StateMessage>,
}

/// The view of an optional byte string.
pub open spec fn generics_view(g: Option<Vec<u8>>) -> Option<Seq<u8>> {
    match g {
        Some(v) => Some(v@),
        None => None,
    }
}

/// True of byte sequences that contain only ASCII.
pub open spec fn ascii_seq(s: Seq<u8>) -> bool {
    forall|i: int| 0 <= i < s.len() ==> s[i] < 128
}

/// True of the punctuation bytes that are removed from type-parameter text
/// before it is folded into a dispatch tag.
pub open spec fn tag_strips(b: u8) -> bool {
    b == 39 || b == 60 || b == 62 || b == 38 || b == 32 || b == 44 || b == 91
        || b == 93
}

/// Type-parameter text with tag punctuation removed, order preserved.
pub open spec fn strip_args(s: Seq<u8>) -> Seq<u8>
    decreases s.len(),
{
    if s.len() == 0 {
        Seq::empty()
    } else if tag_strips(s.last()) {
        strip_args(s.drop_last())
    } else {
        strip_args(s.drop_last()).push(s.last())
    }
}

/// What `convert_case` turns a string into under its Pascal-case rules.
pub uninterp spec fn pascal_of(s: Seq<u8>) -> Seq<u8>;

/// The fixed suffix of every dispatch tag.
pub open spec fn tag_suffix() -> Seq<u8> {
    seq![83, 116, 97, 116, 101]
}

/// The fixed suffix of a machine's state-union name.
pub open spec fn union_suffix() -> Seq<u8> {
    seq![83, 116, 97, 116, 101, 115]
}

/// The dispatch tag of a state: its name, the Pascal-cased stripped
/// type-parameter text, and the suffix `State`.
pub open spec fn spec_state_tag(name: Seq<u8>, generics: Option<Seq<u8>>) -> Seq<u8> {
    match generics {
        Some(g) => name + pascal_of(strip_args(g)) + tag_suffix(),
        None => name + tag_suffix(),
    }
}

/// Relies on `convert_case`'s `Casing::to_case` with `Case::Pascal`: the
/// result is a pure function of the input characters; the empty string stays
/// empty.
#[verifier::external_body]
fn to_pascal(s: &Vec<u8>) -> (r: Vec<u8>)
    requires
        ascii_seq(s@),
    ensures
        r@ == pascal_of(s@),
        s@.len() == 0 ==> r@.len() == 0,
{
    let text = String::from_utf8(s.clone()).unwrap();
    convert_case::Casing::to_case(&text, convert_case::Case::Pascal).into_bytes()
}

/// Appends a copy of `src` to `dst`.
pub fn push_all(dst: &mut Vec<u8>, src: &Vec<u8>)
    ensures
        final(dst)@ == old(dst)@ + src@,
{
    let mut i: usize = 0;
    while i < src.len()
        invariant
            i <= src@.len(),
            dst@ == old(dst)@ + src@.take(i as int),
        decreases src@.len() - i,
    {
        dst.push(src[i]);
        proof {
            assert(dst@ =~= old(dst)@ + src@.take(i + 1));
        }
        i = i + 1;
    }
    proof {
        assert(dst@ =~= old(dst)@ + src@);
    }
}

/// Removes tag punctuation from type-parameter text, keeping the order of
/// the remaining bytes.
pub fn strip_tag_punctuation(s: &Vec<u8>) -> (r: Vec<u8>)
    ensures
        r@ == strip_args(s@),
        ascii_seq(s@) ==> ascii_seq(r@),
{
    let mut out: Vec<u8> = Vec::new();
    let mut i: usize = 0;
    while i < s.len()
        invariant
            i <= s@.len(),
            out@ == strip_args(s@.take(i as int)),
            ascii_seq(s@) ==> ascii_seq(out@),
        decreases s@.len() - i,
    {
        let b = s[i];
        let keep = !(b == 39 || b == 60 || b == 62 || b == 38 || b == 32 || b == 44
            || b == 91 || b == 93);
        proof {
            assert(s@.take(i + 1).drop_last() =~= s@.take(i as int));
            assert(s@.take(i + 1).last() == s@[i as int]);
        }
        if keep {
            out.push(b);
        }
        i = i + 1;
    }
    proof {
        assert(s@.take(s@.len() as int) =~= s@);
    }
    out
}

impl State {
    /// The state's dispatch tag is the one derived from its name and
    /// type-parameter text.
    pub open spec fn tag_consistent(self) -> bool {
        self.enum_name@ == spec_state_tag(self.name@, generics_view(self.generics))
    }

    /// Derives the dispatch tag for a state name and optional
    /// type-parameter text.
    pub fn state_to_enum(name: &Vec<u8>, generics: &Option<Vec<u8>>) -> (r: Vec<u8>)
        requires
            match generics {
                Some(g) => ascii_seq(g@),
                None => true,
            },
        ensures
            r@ == spec_state_tag(name@, match generics {
                Some(g) => Some(g@),
                None => None,
            }),
    {
        let mut out: Vec<u8> = Vec::new();
        push_all(&mut out, name);
        match generics {
            Some(g) => {
                let stripped = strip_tag_punctuation(g);
                let cased = to_pascal(&stripped);
                push_all(&mut out, &cased);
            },
            None => {},
        }
        out.push(83);
        out.push(116);
        out.push(97);
        out.push(116);
        out.push(101);
        proof {
            assert(out@ =~= spec_state_tag(name@, match generics {
                Some(g) => Some(g@),
                None => None,
            }));
        }
        out
    }

    /// The state's name followed by its type-parameter text, as written in
    /// the description.
    pub fn get_name_type(&self) -> (r: Vec<u8>)
        ensures
            r@ == self.name@ + match self.generics {
                Some(g) => g@,
                None => Seq::<u8>::empty(),
            },
    {
        let mut out: Vec<u8> = Vec::new();
        push_all(&mut out, &self.name);
        match &self.generics {
            Some(g) => {
                push_all(&mut out, g);
            },
            None => {},
        }
        proof {
            assert(out@ =~= self.name@ + match self.generics {
                Some(g) => g@,
                None => Seq::<u8>::empty(),
            });
        }
        out
    }
}

impl Message {
    /// The payload's name followed by its type-argument text, as written in
    /// the description.
    pub fn get_name_type(&self) -> (r: Vec<u8>)
        ensures
            r@ == self.name@ + match self.generics {
                Some(g) => g@,
                None => Seq::<u8>::empty(),
            },
    {
        let mut out: Vec<u8> = Vec::new();
        push_all(&mut out, &self.name);
        match &self.generics {
            Some(g) => {
                push_all(&mut out, g);
            },
            None => {},
        }
        proof {
            assert(out@ =~= self.name@ + match self.generics {
                Some(g) => g@,
                None => Seq::<u8>::empty(),
            });
        }
        out
    }
}

impl Machine {
    /// Derives the state-union name for a machine name: the name followed by
    /// `States`.
    pub fn enum_name(sfsm_name: &Vec<u8>) -> (r: Vec<u8>)
        ensures
            r@ == sfsm_name@ + union_suffix(),
    {
        let mut out: Vec<u8> = Vec::new();
        push_all(&mut out, sfsm_name);
        out.push(83);
        out.push(116);
        out.push(97);
        out.push(116);
        out.push(101);
        out.push(115);
        proof {
            assert(out@ =~= sfsm_name@ + union_suffix());
        }
        out
    }
}

/// The name of the per-state lifecycle trait bound by a mode.
pub open spec fn state_trait_name(mode: Mode) -> Seq<u8> {
    match mode {
        Mode::NonFallible => seq![83, 116, 97, 116, 101],
        Mode::Fallible => seq![84, 114, 121, 83, 116, 97, 116, 101],
    }
}

/// The name of the per-transition trait bound by a mode.
pub open spec fn transit_trait_name(mode: Mode) -> Seq<u8> {
    match mode {
        Mode::NonFallible => seq![84, 114, 97, 110, 115, 105, 116, 105, 111, 110],
        Mode::Fallible => seq![84, 114, 121, 84, 114, 97, 110, 115, 105, 116, 105, 111, 110],
    }
}

/// The name of the entry hook bound by a mode.
pub open spec fn entry_hook_name(mode: Mode) -> Seq<u8> {
    match mode {
        Mode::NonFallible => seq![101, 110, 116, 114, 121],
        Mode::Fallible => seq![116, 114, 121, 95, 101, 110, 116, 114, 121],
    }
}

/// The name of the exit hook bound by a mode.
pub open spec fn exit_hook_name(mode: Mode) -> Seq<u8> {
    match mode {
        Mode::NonFallible => seq![101, 120, 105, 116],
        Mode::Fallible => seq![116, 114, 121, 95, 101, 120, 105, 116],
    }
}

/// The name of the execute hook bound by a mode.
pub open spec fn execute_hook_name(mode: Mode) -> Seq<u8> {
    match mode {
        Mode::NonFallible => seq![101, 120, 101, 99, 117, 116, 101],
        Mode::Fallible => seq![116, 114, 121, 95, 101, 120, 101, 99, 117, 116, 101],
    }
}

/// The name of the transition action hook bound by a mode.
pub open spec fn action_hook_name(mode: Mode) -> Seq<u8> {
    match mode {
        Mode::NonFallible => seq![97, 99, 116, 105, 111, 110],
        Mode::Fallible => seq![116, 114, 121, 95, 97, 99, 116, 105, 111, 110],
    }
}

/// The name of the error type a machine of the given mode reports.
pub open spec fn error_kind_name(mode: Mode) -> Seq<u8> {
    match mode {
        Mode::NonFallible => seq![83, 102, 115, 109, 69, 114, 114, 111, 114],
        Mode::Fallible => seq![
            69,
            120,
            116,
            101,
            110,
            100,
            101,
            100,
            83,
            102,
            115,
            109,
            69,
            114,
            114,
            111,
            114,
        ],
    }
}

/// True when the bindings carry exactly the names of the given mode.
pub open spec fn bindings_match(td: TraitDefinitions, mode: Mode) -> bool {
    &&& td.state_trait@ == state_trait_name(mode)
    &&& td.transit_trait@ == transit_trait_name(mode)
    &&& td.entry@ == entry_hook_name(mode)
    &&& td.exit@ == exit_hook_name(mode)
    &&& td.execute@ == execute_hook_name(mode)
    &&& td.action@ == action_hook_name(mode)
}

impl TraitDefinitions {
    /// The hook-name bindings for a mode: the plain lifecycle names for a
    /// non-fallible machine, the `try_`-prefixed ones for a fallible
    /// machine.
    pub fn for_mode(mode: Mode) -> (r: TraitDefinitions)
        ensures
            bindings_match(r, mode),
    {
        let r = match mode {
            Mode::NonFallible => TraitDefinitions {
                state_trait: vec![83, 116, 97, 116, 101],
                transit_trait: vec![84, 114, 97, 110, 115, 105, 116, 105, 111, 110],
                entry: vec![101, 110, 116, 114, 121],
                exit: vec![101, 120, 105, 116],
                execute: vec![101, 120, 101, 99, 117, 116, 101],
                action: vec![97, 99, 116, 105, 111, 110],
            },
            Mode::Fallible => TraitDefinitions {
                state_trait: vec![84, 114, 121, 83, 116, 97, 116, 101],
                transit_trait: vec![84, 114, 121, 84, 114, 97, 110, 115, 105, 116, 105, 111, 110],
                entry: vec![116, 114, 121, 95, 101, 110, 116, 114, 121],
                exit: vec![116, 114, 121, 95, 101, 120, 105, 116],
                execute: vec![116, 114, 121, 95, 101, 120, 101, 99, 117, 116, 101],
                action: vec![116, 114, 121, 95, 97, 99, 116, 105, 111, 110],
            },
        };
        proof {
            assert(r.state_trait@ =~= state_trait_name(mode));
            assert(r.transit_trait@ =~= transit_trait_name(mode));
            assert(r.entry@ =~= entry_hook_name(mode));
            assert(r.exit@ =~= exit_hook_name(mode));
            assert(r.execute@ =~= execute_hook_name(mode));
            assert(r.action@ =~= action_hook_name(mode));
        }
        r
    }
}

/// Builds the name of the error type a machine of the given mode reports.
pub fn error_name_for(mode: Mode) -> (r: Vec<u8>)
    ensures
        r@ == error_kind_name(mode),
{
    let r: Vec<u8> = match mode {
        Mode::NonFallible => vec![83, 102, 115, 109, 69, 114, 114, 111, 114],
        Mode::Fallible => vec![
            69,
            120,
            116,
            101,
            110,
            100,
            101,
            100,
            83,
            102,
            115,
            109,
            69,
            114,
            114,
            111,
            114,
        ],
    };
    proof {
        assert(r@ =~= error_kind_name(mode));
    }
    r
}

} // verus!
