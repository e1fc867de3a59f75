//! The tokenizer / validator: a two-state machine that walks the raw token
//! sequence once, left to right, classifying each token against the declared
//! flags and arguments.
//!
//! The machine is first written as a specification ([`spec_parse`]) and the
//! executable [`Parser::parse`] is proved to return exactly its outcome.

use vstd::prelude::*;
use vstd::string::StrSliceExecFns;
use crate::model::Flag;
use crate::model::FlagView;
use crate::model::Argument;
use crate::model::ArgumentView;
use crate::model::Parser;
use crate::model::ParserView;
use crate::text::begins_with_marker;
use crate::text::flag_name;
use crate::text::has_string;
use crate::text::is_flag_token;
use crate::text::lower;
use crate::text::lower_ascii;
use crate::text::lemma_pair_views_push;
use crate::text::lemma_string_views_push;
use crate::text::pair_views;
use crate::text::starts_marker;
use crate::text::string_views;
use crate::usage::spec_usage;

verus! {

/// The flags and arguments recognized by one successful parse: each used
/// flag with its captured option value (empty when none was supplied), and
/// each positional argument, in input order.
pub struct ParsedArgs {
    pub flags: Vec<(String, String)>,
    pub arguments: Vec<String>,
}

/// The kinds of terminal validation failure.
#[derive(Clone, Copy, PartialEq, Eq, Structural, Debug)]
pub enum ErrorKind {
    /// A marked token names no declared flag and is not the help alias.
    UnknownFlag,
    /// A flag was supplied more than once in the same invocation.
    DuplicateFlag,
    /// An unmarked token names no declared argument.
    UnknownArgument,
    /// A positional argument was supplied more than once.
    DuplicateArgument,
    /// An unmarked token immediately follows a flag with zero option slots.
    FlagTakesNoOption,
}

/// A terminal validation failure: its kind, the offending token, and the
/// rendered usage text for the caller to display.
pub struct ParseError {
    pub kind: ErrorKind,
    pub token: String,
    pub usage: String,
}

/// What one parse call yields: a structured result, a help request carrying
/// the rendered usage text, or a terminal validation failure.
pub enum ParseOutcome {
    Success(ParsedArgs),
    Help(String),
    Failure(ParseError),
}

/// The machine's outcome at the specification level.
#[verifier::ext_equal]
pub enum SpecOutcome {
    Success { flags: Seq<(Seq<char>, Seq<char>)>, arguments: Seq<Seq<char>> },
    Help,
    Failure { kind: ErrorKind, token: Seq<char> },
}

/// The machine's control state.  `Awaiting` carries the declared title of
/// the flag whose option value the very next token may supply; `AfterZero`
/// remembers that the previous token named a flag with zero option slots.
#[verifier::ext_equal]
pub enum SpecMode {
    Expecting,
    AfterZero,
    Awaiting(Seq<char>),
}

/// The machine's full state between tokens: the control state, the
/// case-folded names of the flags already used, the titles of the arguments
/// already used, and the output accumulated so far.
#[verifier::ext_equal]
pub struct MachState {
    pub mode: SpecMode,
    pub used_flags: Seq<Seq<char>>,
    pub used_args: Seq<Seq<char>>,
    pub out_flags: Seq<(Seq<char>, Seq<char>)>,
    pub out_args: Seq<Seq<char>>,
}

/// One token either advances the machine or stops it with a terminal
/// outcome.
pub enum StepRes {
    Go(MachState),
    Stop(SpecOutcome),
}

/// The index of the first declared flag whose case-folded title equals
/// `name`, if any.
pub open spec fn flag_hit(fs: Seq<FlagView>, name: Seq<char>) -> Option<int>
    decreases fs.len(),
{
    if fs.len() == 0 {
        None
    } else if lower(fs[0].title) == name {
        Some(0int)
    } else {
        match flag_hit(fs.drop_first(), name) {
            Some(i) => Some(i + 1),
            None => None,
        }
    }
}

/// The index of the first declared argument whose title (declared, compared
/// as written) equals the case-folded token `name`, if any.
pub open spec fn arg_hit(args: Seq<ArgumentView>, name: Seq<char>) -> Option<int>
    decreases args.len(),
{
    if args.len() == 0 {
        None
    } else if args[0].title == name {
        Some(0int)
    } else {
        match arg_hit(args.drop_first(), name) {
            Some(i) => Some(i + 1),
            None => None,
        }
    }
}

/// Classifies one token from the `Expecting` or `AfterZero` state.
///
/// A marked token beyond the bare marker is a flag use: first checked
/// against the already-used flags, then matched against the declared flags
/// (a zero-slot flag is recorded at once with an empty value; one with slots
/// makes its title the awaited flag), then against the help alias `h`, and
/// otherwise refused.  Any other token is case-folded and matched as a
/// positional argument; when nothing matches immediately after a zero-slot
/// flag, the failure is `FlagTakesNoOption` instead of `UnknownArgument`.
pub open spec fn classify(p: ParserView, st: MachState, t: Seq<char>, after_zero: bool) -> StepRes {
    if is_flag_token(t) {
        let name = flag_name(t);
        if st.used_flags.contains(name) {
            StepRes::Stop(SpecOutcome::Failure { kind: ErrorKind::DuplicateFlag, token: t })
        } else {
            match flag_hit(p.flags, name) {
                Some(i) => if p.flags[i].options.len() > 0 {
                    StepRes::Go(
                        MachState {
                            mode: SpecMode::Awaiting(p.flags[i].title),
                            used_flags: st.used_flags.push(name),
                            ..st
                        },
                    )
                } else {
                    StepRes::Go(
                        MachState {
                            mode: SpecMode::AfterZero,
                            used_flags: st.used_flags.push(name),
                            out_flags: st.out_flags.push((p.flags[i].title, Seq::empty())),
                            ..st
                        },
                    )
                },
                None => if name == "h"@ {
                    StepRes::Stop(SpecOutcome::Help)
                } else {
                    StepRes::Stop(
                        SpecOutcome::Failure { kind: ErrorKind::UnknownFlag, token: t },
                    )
                },
            }
        }
    } else {
        let name = lower(t);
        if st.used_args.contains(name) {
            StepRes::Stop(SpecOutcome::Failure { kind: ErrorKind::DuplicateArgument, token: t })
        } else {
            match arg_hit(p.arguments, name) {
                Some(i) => StepRes::Go(
                    MachState {
                        mode: SpecMode::Expecting,
                        used_args: st.used_args.push(name),
                        out_args: st.out_args.push(name),
                        ..st
                    },
                ),
                None => StepRes::Stop(
                    SpecOutcome::Failure {
                        kind: if after_zero && !starts_marker(t) {
                            ErrorKind::FlagTakesNoOption
                        } else {
                            ErrorKind::UnknownArgument
                        },
                        token: t,
                    },
                ),
            }
        }
    }
}

/// Feeds one token to the machine.  From `Awaiting`, a marked token first
/// records the awaited flag with an empty option value and is then
/// reclassified afresh; any other token is captured, case-folded, as that
/// flag's sole option value.
pub open spec fn step(p: ParserView, st: MachState, t: Seq<char>) -> StepRes {
    match st.mode {
        SpecMode::Expecting => classify(p, st, t, false),
        SpecMode::AfterZero => classify(p, st, t, true),
        SpecMode::Awaiting(title) => if starts_marker(t) {
            classify(
                p,
                MachState {
                    mode: SpecMode::Expecting,
                    out_flags: st.out_flags.push((title, Seq::empty())),
                    ..st
                },
                t,
                false,
            )
        } else {
            StepRes::Go(
                MachState {
                    mode: SpecMode::Expecting,
                    out_flags: st.out_flags.push((title, lower(t))),
                    ..st
                },
            )
        },
    }
}

/// Ends the input: a still-awaited flag is recorded one final time with an
/// empty option value, so every used flag appears in the result.
pub open spec fn finalize(st: MachState) -> SpecOutcome {
    match st.mode {
        SpecMode::Awaiting(title) => SpecOutcome::Success {
            flags: st.out_flags.push((title, Seq::empty())),
            arguments: st.out_args,
        },
        _ => SpecOutcome::Success { flags: st.out_flags, arguments: st.out_args },
    }
}

/// Runs the machine over the tokens from position `i` in state `st`.
pub open spec fn run(p: ParserView, toks: Seq<Seq<char>>, i: int, st: MachState) -> SpecOutcome
    decreases toks.len() - i,
{
    if !(0 <= i < toks.len()) {
        finalize(st)
    } else {
        match step(p, st, toks[i]) {
            StepRes::Go(st2) => run(p, toks, i + 1, st2),
            StepRes::Stop(o) => o,
        }
    }
}

/// The machine's initial state: nothing used, nothing produced.
pub open spec fn init_state() -> MachState {
    MachState {
        mode: SpecMode::Expecting,
        used_flags: Seq::empty(),
        used_args: Seq::empty(),
        out_flags: Seq::empty(),
        out_args: Seq::empty(),
    }
}

/// The outcome of classifying the whole token sequence against the parser.
pub open spec fn spec_parse(p: ParserView, toks: Seq<Seq<char>>) -> SpecOutcome {
    run(p, toks, 0, init_state())
}

/// How an executable outcome realizes the machine's outcome: a success
/// carries exactly the machine's record, a help request and a failure carry
/// the rendered usage text, and a failure carries the machine's kind and
/// offending token.
pub open spec fn outcome_matches(p: ParserView, toks: Seq<Seq<char>>, r: ParseOutcome) -> bool {
    match r {
        ParseOutcome::Success(pa) => spec_parse(p, toks) == (SpecOutcome::Success {
            flags: pair_views(pa.flags@),
            arguments: string_views(pa.arguments@),
        }),
        ParseOutcome::Help(u) => spec_parse(p, toks) is Help && u@ == spec_usage(p),
        ParseOutcome::Failure(e) => match spec_parse(p, toks) {
            SpecOutcome::Failure { kind, token } => e.kind == kind && e.token@ == token
                && e.usage@ == spec_usage(p),
            _ => false,
        },
    }
}

/// `flag_hit` finds exactly the first case-folded match among the declared
/// flags.
pub proof fn lemma_flag_hit_props(fs: Seq<FlagView>, name: Seq<char>)
    ensures
        match flag_hit(fs, name) {
            Some(i) => 0 <= i < fs.len() && lower(fs[i].title) == name && (forall|k: int|
                0 <= k < i ==> lower(fs[k].title) != name),
            None => forall|k: int| 0 <= k < fs.len() ==> lower(fs[k].title) != name,
        },
    decreases fs.len(),
{
    if fs.len() == 0 {
    } else if lower(fs[0].title) == name {
    } else {
        let tail = fs.drop_first();
        lemma_flag_hit_props(tail, name);
        assert(forall|k: int| 1 <= k < fs.len() ==> fs[k] == tail[k - 1]);
        match flag_hit(tail, name) {
            Some(i) => {
                assert(lower(fs[i + 1].title) == name);
                assert forall|k: int| 0 <= k < i + 1 implies lower(fs[k].title) != name by {
                    if k >= 1 {
                        assert(fs[k] == tail[k - 1]);
                    }
                }
            },
            None => {
                assert forall|k: int| 0 <= k < fs.len() implies lower(fs[k].title) != name by {
                    if k >= 1 {
                        assert(fs[k] == tail[k - 1]);
                    }
                }
            },
        }
    }
}

/// `arg_hit` finds exactly the first match among the declared arguments.
pub proof fn lemma_arg_hit_props(args: Seq<ArgumentView>, name: Seq<char>)
    ensures
        match arg_hit(args, name) {
            Some(i) => 0 <= i < args.len() && args[i].title == name && (forall|k: int|
                0 <= k < i ==> args[k].title != name),
            None => forall|k: int| 0 <= k < args.len() ==> args[k].title != name,
        },
    decreases args.len(),
{
    if args.len() == 0 {
    } else if args[0].title == name {
    } else {
        let tail = args.drop_first();
        lemma_arg_hit_props(tail, name);
        assert(forall|k: int| 1 <= k < args.len() ==> args[k] == tail[k - 1]);
        match arg_hit(tail, name) {
            Some(i) => {
                assert(args[i + 1].title == name);
                assert forall|k: int| 0 <= k < i + 1 implies args[k].title != name by {
                    if k >= 1 {
                        assert(args[k] == tail[k - 1]);
                    }
                }
            },
            None => {
                assert forall|k: int| 0 <= k < args.len() implies args[k].title != name by {
                    if k >= 1 {
                        assert(args[k] == tail[k - 1]);
                    }
                }
            },
        }
    }
}

/// Linear scan realizing `flag_hit` over the declared flags.
#[verifier::loop_isolation(false)]
fn find_flag(flags: &Vec<Flag>, name: &String) -> (r: Option<usize>)
    ensures
        match r {
            Some(j) => j < flags@.len() && flag_hit(
                flags@.map_values(|f: Flag| f@),
                name@,
            ) == Some(j as int),
            None => flag_hit(flags@.map_values(|f: Flag| f@), name@) is None,
        },
{
    let ghost fvs = flags@.map_values(|f: Flag| f@);
    let mut j: usize = 0;
    while j < flags.len()
        invariant
            j <= flags.len(),
            forall|k: int| 0 <= k < j ==> lower(fvs[k].title) != name@,
        decreases flags.len() - j,
    {
        let folded = lower_ascii(flags[j].title.as_str());
        proof {
            assert(fvs[j as int] == flags@[j as int]@);
        }
        if folded == *name {
            proof {
                lemma_flag_hit_props(fvs, name@);
                assert(lower(fvs[j as int].title) == name@);
                assert(flag_hit(fvs, name@) == Some(j as int));
            }
            return Some(j);
        }
        j += 1;
    }
    proof {
        lemma_flag_hit_props(fvs, name@);
        assert(flag_hit(fvs, name@) is None);
    }
    None
}

/// Linear scan realizing `arg_hit` over the declared arguments.
#[verifier::loop_isolation(false)]
fn find_arg(args: &Vec<Argument>, name: &String) -> (r: Option<usize>)
    ensures
        match r {
            Some(j) => j < args@.len() && arg_hit(
                args@.map_values(|a: Argument| a@),
                name@,
            ) == Some(j as int),
            None => arg_hit(args@.map_values(|a: Argument| a@), name@) is None,
        },
{
    let ghost avs = args@.map_values(|a: Argument| a@);
    let mut j: usize = 0;
    while j < args.len()
        invariant
            j <= args.len(),
            forall|k: int| 0 <= k < j ==> avs[k].title != name@,
        decreases args.len() - j,
    {
        proof {
            assert(avs[j as int] == args@[j as int]@);
        }
        if args[j].title == *name {
            proof {
                lemma_arg_hit_props(avs, name@);
                assert(avs[j as int].title == name@);
                assert(arg_hit(avs, name@) == Some(j as int));
            }
            return Some(j);
        }
        j += 1;
    }
    proof {
        lemma_arg_hit_props(avs, name@);
        assert(arg_hit(avs, name@) is None);
    }
    None
}

/// The machine state a parse in progress stands in, read off the executable
/// accumulators.
pub open spec fn abs_state(
    pending: Option<String>,
    after_zero: bool,
    used_flags: Seq<String>,
    used_args: Seq<String>,
    out_flags: Seq<(String, String)>,
    out_args: Seq<String>,
) -> MachState {
    MachState {
        mode: match pending {
            Some(t) => SpecMode::Awaiting(t@),
            None => if after_zero {
                SpecMode::AfterZero
            } else {
                SpecMode::Expecting
            },
        },
        used_flags: string_views(used_flags),
        used_args: string_views(used_args),
        out_flags: pair_views(out_flags),
        out_args: string_views(out_args),
    }
}

impl Parser {
    /// Classifies and validates the raw token sequence against this parser,
    /// walking it once, left to right.  The result is exactly the machine's
    /// outcome: the recognized flags and arguments on success, the rendered
    /// usage text on an `-h` help request, and on the first invalid token a
    /// failure carrying its kind, the token, and the usage text.
    #[verifier::loop_isolation(false)]
    pub fn parse(&self, tokens: &Vec<String>) -> (r: ParseOutcome)
        ensures
            outcome_matches(self@, string_views(tokens@), r),
    {
        let ghost p = self@;
        let ghost toks = string_views(tokens@);
        let mut used_flags: Vec<String> = Vec::new();
        let mut used_args: Vec<String> = Vec::new();
        let mut out_flags: Vec<(String, String)> = Vec::new();
        let mut out_args: Vec<String> = Vec::new();
        let mut pending: Option<String> = None;
        let mut after_zero: bool = false;
        let mut idx: usize = 0;
        proof {
            assert(abs_state(pending, after_zero, used_flags@, used_args@, out_flags@, out_args@)
                =~= init_state());
        }
        while idx < tokens.len()
            invariant
                idx <= tokens.len(),
                !(pending is Some && after_zero),
                run(
                    p,
                    toks,
                    idx as int,
                    abs_state(pending, after_zero, used_flags@, used_args@, out_flags@, out_args@),
                ) == spec_parse(p, toks),
            decreases tokens.len() - idx,
        {
            let ghost pre = abs_state(
                pending,
                after_zero,
                used_flags@,
                used_args@,
                out_flags@,
                out_args@,
            );
            let tok: &String = &tokens[idx];
            proof {
                assert(toks[idx as int] == tok@);
            }
            let marked = begins_with_marker(tok.as_str());
            let n = tok.as_str().unicode_len();

            let prev = pending;
            pending = None;
            let was_zero = after_zero;
            after_zero = false;

            // From `Awaiting`, an unmarked token is the awaited flag's option
            // value; a marked one records the flag empty and falls through to
            // fresh classification.
            let mut skip_classify = false;
            let mut az = was_zero;
            match prev {
                Some(title) => {
                    az = false;
                    let ghost before_out = out_flags@;
                    if marked {
                        let pr = (title, String::new());
                        out_flags.push(pr);
                        proof {
                            lemma_pair_views_push(before_out, pr);
                        }
                    } else {
                        let folded = lower_ascii(tok.as_str());
                        let pr = (title, folded);
                        out_flags.push(pr);
                        proof {
                            lemma_pair_views_push(before_out, pr);
                        }
                        skip_classify = true;
                    }
                },
                None => {},
            }
            if !skip_classify {
                if marked && n >= 2 {
                    let rest = tok.as_str().substring_char(1, n);
                    let name = lower_ascii(rest);
                    proof {
                        assert(name@ == flag_name(tok@));
                    }
                    if has_string(&used_flags, &name) {
                        return ParseOutcome::Failure(
                            ParseError {
                                kind: ErrorKind::DuplicateFlag,
                                token: tok.clone(),
                                usage: self.help(),
                            },
                        );
                    }
                    match find_flag(&self.flags, &name) {
                        Some(j) => {
                            let ghost before_used = used_flags@;
                            used_flags.push(name);
                            proof {
                                lemma_string_views_push(before_used, name);
                            }
                            if self.flags[j].options.len() > 0 {
                                pending = Some(self.flags[j].title.clone());
                            } else {
                                let ghost before_out = out_flags@;
                                let pr = (self.flags[j].title.clone(), String::new());
                                out_flags.push(pr);
                                proof {
                                    lemma_pair_views_push(before_out, pr);
                                }
                                after_zero = true;
                            }
                        },
                        None => {
                            let halias = "h".to_owned();
                            if name == halias {
                                return ParseOutcome::Help(self.help());
                            } else {
                                return ParseOutcome::Failure(
                                    ParseError {
                                        kind: ErrorKind::UnknownFlag,
                                        token: tok.clone(),
                                        usage: self.help(),
                                    },
                                );
                            }
                        },
                    }
                } else {
                    let name = lower_ascii(tok.as_str());
                    if has_string(&used_args, &name) {
                        return ParseOutcome::Failure(
                            ParseError {
                                kind: ErrorKind::DuplicateArgument,
                                token: tok.clone(),
                                usage: self.help(),
                            },
                        );
                    }
                    match find_arg(&self.arguments, &name) {
                        Some(j) => {
                            let ghost before_used = used_args@;
                            let ghost before_out = out_args@;
                            let name2 = name.clone();
                            out_args.push(name);
                            used_args.push(name2);
                            proof {
                                lemma_string_views_push(before_out, name);
                                lemma_string_views_push(before_used, name2);
                            }
                        },
                        None => {
                            let kind = if az && !marked {
                                ErrorKind::FlagTakesNoOption
                            } else {
                                ErrorKind::UnknownArgument
                            };
                            return ParseOutcome::Failure(
                                ParseError { kind, token: tok.clone(), usage: self.help() },
                            );
                        },
                    }
                }
            }
            idx += 1;
        }
        let prev = pending;
        match prev {
            Some(title) => {
                let ghost before_out = out_flags@;
                let pr = (title, String::new());
                out_flags.push(pr);
                proof {
                    lemma_pair_views_push(before_out, pr);
                }
            },
            None => {},
        }
        ParseOutcome::Success(ParsedArgs { flags: out_flags, arguments: out_args })
    }
}

} // verus!
