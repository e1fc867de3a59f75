//! Laws of the tokenizer / validator, proved over the specification
//! machine.  Because `Parser::parse` is proved to return exactly the
//! machine's outcome, each law transfers to the executable parser.

use vstd::prelude::*;
use crate::model::ParserView;
use crate::model::distinct_titles;
use crate::parse::ErrorKind;
use crate::parse::MachState;
use crate::parse::SpecMode;
use crate::parse::SpecOutcome;
use crate::parse::StepRes;
use crate::parse::classify;
use crate::parse::flag_hit;
use crate::parse::arg_hit;
use crate::parse::init_state;
use crate::parse::lemma_arg_hit_props;
use crate::parse::lemma_flag_hit_props;
use crate::parse::run;
use crate::parse::spec_parse;
use crate::parse::step;
use crate::text::flag_name;
use crate::text::is_flag_token;
use crate::text::lower;
use crate::text::starts_marker;

verus! {

/// The flag entries of a successful outcome.
pub open spec fn success_flags(o: SpecOutcome) -> Seq<(Seq<char>, Seq<char>)> {
    match o {
        SpecOutcome::Success { flags, .. } => flags,
        _ => Seq::empty(),
    }
}

/// The argument entries of a successful outcome.
pub open spec fn success_args(o: SpecOutcome) -> Seq<Seq<char>> {
    match o {
        SpecOutcome::Success { arguments, .. } => arguments,
        _ => Seq::empty(),
    }
}

/// An output entry respects zero-slot flags: if its title is that of a
/// declared flag with zero option slots, its option value is empty.
spec fn zero_slot_entry_ok(p: ParserView, e: (Seq<char>, Seq<char>)) -> bool {
    forall|i: int|
        0 <= i < p.flags.len() && #[trigger] p.flags[i].title == e.0 && p.flags[i].options.len()
            == 0 ==> e.1 == Seq::<char>::empty()
}

/// Invariant backing the zero-slot law: an awaited flag always has option
/// slots, and every entry produced so far respects zero-slot flags.
spec fn zero_slot_inv(p: ParserView, st: MachState) -> bool {
    &&& (st.mode matches SpecMode::Awaiting(t) ==> exists|i: int|
        0 <= i < p.flags.len() && #[trigger] p.flags[i].title == t && p.flags[i].options.len() > 0)
    &&& forall|k: int| 0 <= k < st.out_flags.len() ==> zero_slot_entry_ok(p, #[trigger] st.out_flags[k])
}

proof fn lemma_pushed_entry_ok(p: ParserView, st: MachState, e: (Seq<char>, Seq<char>))
    requires
        forall|k: int| 0 <= k < st.out_flags.len() ==> zero_slot_entry_ok(p, #[trigger] st.out_flags[k]),
        zero_slot_entry_ok(p, e),
    ensures
        forall|k: int|
            0 <= k < st.out_flags.push(e).len() ==> zero_slot_entry_ok(
                p,
                #[trigger] st.out_flags.push(e)[k],
            ),
{
    assert forall|k: int| 0 <= k < st.out_flags.push(e).len() implies zero_slot_entry_ok(
        p,
        #[trigger] st.out_flags.push(e)[k],
    ) by {
        if k < st.out_flags.len() {
            assert(st.out_flags.push(e)[k] == st.out_flags[k]);
        } else {
            assert(st.out_flags.push(e)[k] == e);
        }
    }
}

proof fn lemma_classify_zero_slot_inv(p: ParserView, st: MachState, t: Seq<char>, az: bool)
    requires
        distinct_titles(p),
        forall|k: int| 0 <= k < st.out_flags.len() ==> zero_slot_entry_ok(p, #[trigger] st.out_flags[k]),
    ensures
        classify(p, st, t, az) matches StepRes::Go(st2) ==> zero_slot_inv(p, st2),
{
    if is_flag_token(t) {
        let name = flag_name(t);
        lemma_flag_hit_props(p.flags, name);
        if !st.used_flags.contains(name) {
            match flag_hit(p.flags, name) {
                Some(i) => {
                    if p.flags[i].options.len() > 0 {
                        assert(0 <= i < p.flags.len() && p.flags[i].title == p.flags[i].title
                            && p.flags[i].options.len() > 0);
                    } else {
                        lemma_pushed_entry_ok(p, st, (p.flags[i].title, Seq::empty()));
                    }
                },
                None => {},
            }
        }
    }
}

proof fn lemma_step_zero_slot_inv(p: ParserView, st: MachState, t: Seq<char>)
    requires
        distinct_titles(p),
        zero_slot_inv(p, st),
    ensures
        step(p, st, t) matches StepRes::Go(st2) ==> zero_slot_inv(p, st2),
{
    match st.mode {
        SpecMode::Expecting => {
            lemma_classify_zero_slot_inv(p, st, t, false);
        },
        SpecMode::AfterZero => {
            lemma_classify_zero_slot_inv(p, st, t, true);
        },
        SpecMode::Awaiting(title) => {
            let i0 = choose|i0: int|
                0 <= i0 < p.flags.len() && #[trigger] p.flags[i0].title == title && p.flags[
                    i0
                ].options.len() > 0;
            if starts_marker(t) {
                lemma_pushed_entry_ok(p, st, (title, Seq::empty()));
                let st1 = MachState {
                    mode: SpecMode::Expecting,
                    out_flags: st.out_flags.push((title, Seq::empty())),
                    ..st
                };
                lemma_classify_zero_slot_inv(p, st1, t, false);
            } else {
                // The captured value is attached to an awaited flag, which
                // has option slots; distinct titles rule out a zero-slot
                // flag of the same title.
                assert(zero_slot_entry_ok(p, (title, lower(t)))) by {
                    assert forall|i: int|
                        0 <= i < p.flags.len() && #[trigger] p.flags[i].title == title && p.flags[
                            i
                        ].options.len() == 0 implies (title, lower(t)).1 == Seq::<char>::empty() by {
                        if i != i0 {
                            assert(lower(p.flags[i].title) == lower(p.flags[i0].title));
                        }
                        assert(false);
                    }
                }
                lemma_pushed_entry_ok(p, st, (title, lower(t)));
            }
        },
    }
}

proof fn lemma_run_zero_slot(p: ParserView, toks: Seq<Seq<char>>, i: int, st: MachState)
    requires
        distinct_titles(p),
        zero_slot_inv(p, st),
    ensures
        run(p, toks, i, st) matches SpecOutcome::Success { flags, .. } ==> forall|k: int|
            0 <= k < flags.len() ==> zero_slot_entry_ok(p, #[trigger] flags[k]),
    decreases toks.len() - i,
{
    if !(0 <= i < toks.len()) {
        match st.mode {
            SpecMode::Awaiting(title) => {
                assert(zero_slot_entry_ok(p, (title, Seq::empty())));
                lemma_pushed_entry_ok(p, st, (title, Seq::empty()));
            },
            _ => {},
        }
    } else {
        lemma_step_zero_slot_inv(p, st, toks[i]);
        match step(p, st, toks[i]) {
            StepRes::Go(st2) => {
                lemma_run_zero_slot(p, toks, i + 1, st2);
            },
            StepRes::Stop(o) => {},
        }
    }
}

/// A flag with zero option slots is always recorded with an empty option
/// value: in any successful parse of a parser with distinct titles, an
/// output entry bearing the title of a zero-slot flag carries the empty
/// value, whether or not a token followed it.
pub proof fn lemma_zero_slot_flag_records_empty_value(
    p: ParserView,
    toks: Seq<Seq<char>>,
    k: int,
    i: int,
)
    requires
        distinct_titles(p),
        spec_parse(p, toks) is Success,
        0 <= k < success_flags(spec_parse(p, toks)).len(),
        0 <= i < p.flags.len(),
        p.flags[i].options.len() == 0,
        success_flags(spec_parse(p, toks))[k].0 == p.flags[i].title,
    ensures
        success_flags(spec_parse(p, toks))[k].1 == Seq::<char>::empty(),
{
    assert(zero_slot_inv(p, init_state()));
    lemma_run_zero_slot(p, toks, 0, init_state());
}

proof fn lemma_push_keeps_contains(s: Seq<Seq<char>>, x: Seq<char>, y: Seq<char>)
    requires
        s.contains(y),
    ensures
        s.push(x).contains(y),
{
    let i = choose|i: int| 0 <= i < s.len() && s[i] == y;
    assert(s.push(x)[i] == y);
}

proof fn lemma_contains_pushed(s: Seq<Seq<char>>, x: Seq<char>)
    ensures
        s.push(x).contains(x),
{
    assert(s.push(x)[s.len() as int] == x);
}

proof fn lemma_step_stop_not_success(p: ParserView, st: MachState, t: Seq<char>)
    ensures
        step(p, st, t) matches StepRes::Stop(o) ==> !(o is Success),
{
}

proof fn lemma_step_used_flags_mono(p: ParserView, st: MachState, t: Seq<char>, y: Seq<char>)
    requires
        st.used_flags.contains(y),
    ensures
        step(p, st, t) matches StepRes::Go(st2) ==> st2.used_flags.contains(y),
{
    if is_flag_token(t) {
        lemma_push_keeps_contains(st.used_flags, flag_name(t), y);
    }
}

proof fn lemma_flag_token_go_marks(p: ParserView, st: MachState, t: Seq<char>)
    requires
        is_flag_token(t),
    ensures
        step(p, st, t) matches StepRes::Go(st2) ==> st2.used_flags.contains(flag_name(t)),
{
    lemma_contains_pushed(st.used_flags, flag_name(t));
}

proof fn lemma_used_flag_token_stops(p: ParserView, st: MachState, t: Seq<char>)
    requires
        is_flag_token(t),
        st.used_flags.contains(flag_name(t)),
    ensures
        step(p, st, t) == StepRes::Stop(
            SpecOutcome::Failure { kind: ErrorKind::DuplicateFlag, token: t },
        ),
{
}

proof fn lemma_run_dup_flag(p: ParserView, toks: Seq<Seq<char>>, k: int, j: int, st: MachState)
    requires
        0 <= k <= j < toks.len(),
        is_flag_token(toks[j]),
        st.used_flags.contains(flag_name(toks[j])),
    ensures
        !(run(p, toks, k, st) is Success),
    decreases j - k,
{
    lemma_step_stop_not_success(p, st, toks[k]);
    if k == j {
        lemma_used_flag_token_stops(p, st, toks[j]);
    } else {
        match step(p, st, toks[k]) {
            StepRes::Go(st2) => {
                lemma_step_used_flags_mono(p, st, toks[k], flag_name(toks[j]));
                lemma_run_dup_flag(p, toks, k + 1, j, st2);
            },
            StepRes::Stop(o) => {},
        }
    }
}

proof fn lemma_run_dup_flag_pre(
    p: ParserView,
    toks: Seq<Seq<char>>,
    k: int,
    st: MachState,
    i: int,
    j: int,
)
    requires
        0 <= k <= i < j < toks.len(),
        is_flag_token(toks[i]),
        is_flag_token(toks[j]),
        flag_name(toks[i]) == flag_name(toks[j]),
    ensures
        !(run(p, toks, k, st) is Success),
    decreases i - k,
{
    lemma_step_stop_not_success(p, st, toks[k]);
    match step(p, st, toks[k]) {
        StepRes::Go(st2) => {
            if k == i {
                lemma_flag_token_go_marks(p, st, toks[i]);
                lemma_run_dup_flag(p, toks, i + 1, j, st2);
            } else {
                lemma_run_dup_flag_pre(p, toks, k + 1, st2, i, j);
            }
        },
        StepRes::Stop(o) => {},
    }
}

/// Supplying the same flag name twice never parses successfully: whatever
/// else the input holds, two marked tokens carrying the same case-folded
/// name make the outcome a help request or a failure, never a success.  (On
/// an input whose earlier tokens already stop the machine -- an unknown
/// token, or the help alias -- that earlier outcome wins; the second
/// occurrence itself is refused as `DuplicateFlag`.)
pub proof fn lemma_duplicate_flag_rejected(p: ParserView, toks: Seq<Seq<char>>, i: int, j: int)
    requires
        0 <= i < j < toks.len(),
        is_flag_token(toks[i]),
        is_flag_token(toks[j]),
        flag_name(toks[i]) == flag_name(toks[j]),
    ensures
        !(spec_parse(p, toks) is Success),
{
    lemma_run_dup_flag_pre(p, toks, 0, init_state(), i, j);
}

proof fn lemma_nonmarker_go_expecting(p: ParserView, st: MachState, t: Seq<char>)
    requires
        !starts_marker(t),
    ensures
        step(p, st, t) matches StepRes::Go(st2) ==> st2.mode is Expecting,
{
}

proof fn lemma_step_used_args_mono(p: ParserView, st: MachState, t: Seq<char>, y: Seq<char>)
    requires
        st.used_args.contains(y),
    ensures
        step(p, st, t) matches StepRes::Go(st2) ==> st2.used_args.contains(y),
{
    if !is_flag_token(t) {
        lemma_push_keeps_contains(st.used_args, lower(t), y);
    }
}

proof fn lemma_arg_token_go_marks(p: ParserView, st: MachState, t: Seq<char>)
    requires
        !starts_marker(t),
        st.mode is Expecting || st.mode is AfterZero,
    ensures
        step(p, st, t) matches StepRes::Go(st2) ==> st2.used_args.contains(lower(t)),
{
    lemma_contains_pushed(st.used_args, lower(t));
}

proof fn lemma_used_arg_token_stops(p: ParserView, st: MachState, t: Seq<char>)
    requires
        !starts_marker(t),
        st.mode is Expecting || st.mode is AfterZero,
        st.used_args.contains(lower(t)),
    ensures
        step(p, st, t) == StepRes::Stop(
            SpecOutcome::Failure { kind: ErrorKind::DuplicateArgument, token: t },
        ),
{
}

proof fn lemma_run_dup_arg(p: ParserView, toks: Seq<Seq<char>>, k: int, j: int, st: MachState)
    requires
        0 <= k <= j < toks.len(),
        !starts_marker(toks[j]),
        st.used_args.contains(lower(toks[j])),
        k == j ==> (st.mode is Expecting || st.mode is AfterZero),
        k < j ==> !starts_marker(toks[j - 1]),
    ensures
        !(run(p, toks, k, st) is Success),
    decreases j - k,
{
    lemma_step_stop_not_success(p, st, toks[k]);
    if k == j {
        lemma_used_arg_token_stops(p, st, toks[j]);
    } else {
        match step(p, st, toks[k]) {
            StepRes::Go(st2) => {
                lemma_step_used_args_mono(p, st, toks[k], lower(toks[j]));
                if k + 1 == j {
                    lemma_nonmarker_go_expecting(p, st, toks[k]);
                }
                lemma_run_dup_arg(p, toks, k + 1, j, st2);
            },
            StepRes::Stop(o) => {},
        }
    }
}

proof fn lemma_run_dup_arg_pre(
    p: ParserView,
    toks: Seq<Seq<char>>,
    k: int,
    st: MachState,
    i: int,
    j: int,
)
    requires
        0 <= k <= i < j < toks.len(),
        !starts_marker(toks[i]),
        !starts_marker(toks[j]),
        i == 0 || !starts_marker(toks[i - 1]),
        !starts_marker(toks[j - 1]),
        lower(toks[i]) == lower(toks[j]),
        k == i ==> (st.mode is Expecting || st.mode is AfterZero),
    ensures
        !(run(p, toks, k, st) is Success),
    decreases i - k,
{
    lemma_step_stop_not_success(p, st, toks[k]);
    match step(p, st, toks[k]) {
        StepRes::Go(st2) => {
            if k == i {
                lemma_arg_token_go_marks(p, st, toks[i]);
                lemma_nonmarker_go_expecting(p, st, toks[i]);
                lemma_run_dup_arg(p, toks, i + 1, j, st2);
            } else {
                if k + 1 == i {
                    lemma_nonmarker_go_expecting(p, st, toks[k]);
                }
                lemma_run_dup_arg_pre(p, toks, k + 1, st2, i, j);
            }
        },
        StepRes::Stop(o) => {},
    }
}

/// Supplying the same positional argument twice never parses successfully.
/// The two unmarked tokens must each stand where an argument is classified
/// -- that is, not directly after a marked token, whose flag could instead
/// capture the second occurrence as its option value.
pub proof fn lemma_duplicate_argument_rejected(p: ParserView, toks: Seq<Seq<char>>, i: int, j: int)
    requires
        0 <= i < j < toks.len(),
        !starts_marker(toks[i]),
        !starts_marker(toks[j]),
        i == 0 || !starts_marker(toks[i - 1]),
        !starts_marker(toks[j - 1]),
        lower(toks[i]) == lower(toks[j]),
    ensures
        !(spec_parse(p, toks) is Success),
{
    lemma_run_dup_arg_pre(p, toks, 0, init_state(), i, j);
}

proof fn lemma_unmatched_flag_token_stops(p: ParserView, st: MachState, t: Seq<char>)
    requires
        is_flag_token(t),
        forall|k: int| 0 <= k < p.flags.len() ==> lower(#[trigger] p.flags[k].title) != flag_name(t),
        flag_name(t) != "h"@,
    ensures
        step(p, st, t) matches StepRes::Stop(o) && !(o is Success),
{
    lemma_flag_hit_props(p.flags, flag_name(t));
    lemma_step_stop_not_success(p, st, t);
}

proof fn lemma_run_unknown_flag(p: ParserView, toks: Seq<Seq<char>>, k: int, i: int, st: MachState)
    requires
        0 <= k <= i < toks.len(),
        is_flag_token(toks[i]),
        forall|m: int|
            0 <= m < p.flags.len() ==> lower(#[trigger] p.flags[m].title) != flag_name(toks[i]),
        flag_name(toks[i]) != "h"@,
    ensures
        !(run(p, toks, k, st) is Success),
    decreases i - k,
{
    lemma_step_stop_not_success(p, st, toks[k]);
    if k == i {
        lemma_unmatched_flag_token_stops(p, st, toks[i]);
    } else {
        match step(p, st, toks[k]) {
            StepRes::Go(st2) => {
                lemma_run_unknown_flag(p, toks, k + 1, i, st2);
            },
            StepRes::Stop(o) => {},
        }
    }
}

/// A marked token whose case-folded name matches no declared flag and is
/// not the help alias never lets the parse succeed: when the machine
/// reaches it, it fails as `UnknownFlag` (an earlier token may already have
/// stopped the machine with its own outcome).
pub proof fn lemma_unknown_flag_rejected(p: ParserView, toks: Seq<Seq<char>>, i: int)
    requires
        0 <= i < toks.len(),
        is_flag_token(toks[i]),
        forall|m: int|
            0 <= m < p.flags.len() ==> lower(#[trigger] p.flags[m].title) != flag_name(toks[i]),
        flag_name(toks[i]) != "h"@,
    ensures
        !(spec_parse(p, toks) is Success),
{
    lemma_run_unknown_flag(p, toks, 0, i, init_state());
}

/// The machine's state after it has consumed tokens `i` (inclusive) through
/// `j` (exclusive) without stopping, and `None` when some token in that
/// range stopped it.
spec fn run_state(
    p: ParserView,
    toks: Seq<Seq<char>>,
    i: int,
    j: int,
    st: MachState,
) -> Option<MachState>
    decreases j - i,
{
    if i >= j {
        Some(st)
    } else {
        match step(p, st, toks[i]) {
            StepRes::Go(st2) => run_state(p, toks, i + 1, j, st2),
            StepRes::Stop(o) => None,
        }
    }
}

proof fn lemma_run_state_compose(p: ParserView, toks: Seq<Seq<char>>, k: int, m: int, j: int, st: MachState)
    requires
        k <= m <= j,
    ensures
        run_state(p, toks, k, j, st) == (match run_state(p, toks, k, m, st) {
            Some(s) => run_state(p, toks, m, j, s),
            None => None::<MachState>,
        }),
    decreases m - k,
{
    if k < m {
        match step(p, st, toks[k]) {
            StepRes::Go(st2) => {
                lemma_run_state_compose(p, toks, k + 1, m, j, st2);
            },
            StepRes::Stop(o) => {},
        }
    }
}

proof fn lemma_run_after_state(p: ParserView, toks: Seq<Seq<char>>, k: int, j: int, st: MachState)
    requires
        0 <= k <= j <= toks.len(),
    ensures
        run_state(p, toks, k, j, st) matches Some(s) ==> run(p, toks, k, st) == run(p, toks, j, s),
    decreases j - k,
{
    if k < j {
        match step(p, st, toks[k]) {
            StepRes::Go(st2) => {
                lemma_run_after_state(p, toks, k + 1, j, st2);
            },
            StepRes::Stop(o) => {},
        }
    }
}

proof fn lemma_prefix_success_reaches(p: ParserView, toks: Seq<Seq<char>>, k: int, j: int, st: MachState)
    requires
        0 <= k <= j <= toks.len(),
        run(p, toks.take(j), k, st) is Success,
    ensures
        run_state(p, toks, k, j, st) is Some,
    decreases j - k,
{
    if k < j {
        assert(toks.take(j)[k] == toks[k]);
        lemma_step_stop_not_success(p, st, toks[k]);
        match step(p, st, toks[k]) {
            StepRes::Go(st2) => {
                lemma_prefix_success_reaches(p, toks, k + 1, j, st2);
            },
            StepRes::Stop(o) => {},
        }
    }
}

proof fn lemma_run_state_flags_mono(
    p: ParserView,
    toks: Seq<Seq<char>>,
    k: int,
    j: int,
    st: MachState,
    y: Seq<char>,
)
    requires
        k <= j,
        st.used_flags.contains(y),
    ensures
        run_state(p, toks, k, j, st) matches Some(s) ==> s.used_flags.contains(y),
    decreases j - k,
{
    if k < j {
        lemma_step_used_flags_mono(p, st, toks[k], y);
        match step(p, st, toks[k]) {
            StepRes::Go(st2) => {
                lemma_run_state_flags_mono(p, toks, k + 1, j, st2, y);
            },
            StepRes::Stop(o) => {},
        }
    }
}

proof fn lemma_run_state_args_mono(
    p: ParserView,
    toks: Seq<Seq<char>>,
    k: int,
    j: int,
    st: MachState,
    y: Seq<char>,
)
    requires
        k <= j,
        st.used_args.contains(y),
    ensures
        run_state(p, toks, k, j, st) matches Some(s) ==> s.used_args.contains(y),
    decreases j - k,
{
    if k < j {
        lemma_step_used_args_mono(p, st, toks[k], y);
        match step(p, st, toks[k]) {
            StepRes::Go(st2) => {
                lemma_run_state_args_mono(p, toks, k + 1, j, st2, y);
            },
            StepRes::Stop(o) => {},
        }
    }
}

proof fn lemma_run_state_marks_flag(
    p: ParserView,
    toks: Seq<Seq<char>>,
    k: int,
    i: int,
    j: int,
    st: MachState,
)
    requires
        k <= i < j,
        is_flag_token(toks[i]),
    ensures
        run_state(p, toks, k, j, st) matches Some(s) ==> s.used_flags.contains(
            flag_name(toks[i]),
        ),
{
    lemma_run_state_compose(p, toks, k, i, j, st);
    match run_state(p, toks, k, i, st) {
        Some(si) => {
            lemma_run_state_compose(p, toks, i, i + 1, j, si);
            match step(p, si, toks[i]) {
                StepRes::Go(s2) => {
                    lemma_flag_token_go_marks(p, si, toks[i]);
                    lemma_run_state_flags_mono(p, toks, i + 1, j, s2, flag_name(toks[i]));
                },
                StepRes::Stop(o) => {},
            }
        },
        None => {},
    }
}

proof fn lemma_run_state_mode(p: ParserView, toks: Seq<Seq<char>>, k: int, i: int, st: MachState)
    requires
        k < i,
        !starts_marker(toks[i - 1]),
    ensures
        run_state(p, toks, k, i, st) matches Some(s) ==> s.mode is Expecting,
{
    lemma_run_state_compose(p, toks, k, i - 1, i, st);
    match run_state(p, toks, k, i - 1, st) {
        Some(s1) => {
            match step(p, s1, toks[i - 1]) {
                StepRes::Go(s2) => {
                    assert(run_state(p, toks, i, i, s2) == Some(s2));
                    lemma_nonmarker_go_expecting(p, s1, toks[i - 1]);
                },
                StepRes::Stop(o) => {
                    assert(run_state(p, toks, i - 1, i, s1) is None);
                },
            }
        },
        None => {},
    }
}

proof fn lemma_run_state_marks_arg(
    p: ParserView,
    toks: Seq<Seq<char>>,
    k: int,
    i: int,
    j: int,
    st: MachState,
)
    requires
        k <= i < j,
        !starts_marker(toks[i]),
        i == k ==> (st.mode is Expecting || st.mode is AfterZero),
        i > k ==> !starts_marker(toks[i - 1]),
    ensures
        run_state(p, toks, k, j, st) matches Some(s) ==> s.used_args.contains(lower(toks[i])),
{
    lemma_run_state_compose(p, toks, k, i, j, st);
    match run_state(p, toks, k, i, st) {
        Some(si) => {
            if i > k {
                lemma_run_state_mode(p, toks, k, i, st);
            }
            lemma_run_state_compose(p, toks, i, i + 1, j, si);
            match step(p, si, toks[i]) {
                StepRes::Go(s2) => {
                    lemma_arg_token_go_marks(p, si, toks[i]);
                    lemma_run_state_args_mono(p, toks, i + 1, j, s2, lower(toks[i]));
                },
                StepRes::Stop(o) => {},
            }
        },
        None => {},
    }
}

/// Every used flag name comes from a declared flag.
spec fn used_flags_declared(p: ParserView, st: MachState) -> bool {
    forall|k: int|
        0 <= k < st.used_flags.len() ==> exists|m: int|
            0 <= m < p.flags.len() && lower(#[trigger] p.flags[m].title) == #[trigger] st.used_flags[k]
}

/// Every used argument name is a declared argument's title.
spec fn used_args_declared(p: ParserView, st: MachState) -> bool {
    forall|k: int|
        0 <= k < st.used_args.len() ==> exists|m: int|
            0 <= m < p.arguments.len() && (#[trigger] p.arguments[m].title) == #[trigger] st.used_args[k]
}

proof fn lemma_step_used_declared(p: ParserView, st: MachState, t: Seq<char>)
    requires
        used_flags_declared(p, st),
        used_args_declared(p, st),
    ensures
        step(p, st, t) matches StepRes::Go(st2) ==> used_flags_declared(p, st2)
            && used_args_declared(p, st2),
{
    if is_flag_token(t) {
        let name = flag_name(t);
        lemma_flag_hit_props(p.flags, name);
        match flag_hit(p.flags, name) {
            Some(m) => {
                assert forall|k: int|
                    0 <= k < st.used_flags.push(name).len() implies exists|m2: int|
                        0 <= m2 < p.flags.len() && lower(#[trigger] p.flags[m2].title)
                            == #[trigger] st.used_flags.push(name)[k] by {
                    if k < st.used_flags.len() {
                        assert(st.used_flags.push(name)[k] == st.used_flags[k]);
                    } else {
                        assert(st.used_flags.push(name)[k] == name);
                        assert(0 <= m < p.flags.len() && lower(p.flags[m].title) == name);
                    }
                }
            },
            None => {},
        }
    } else {
        let name = lower(t);
        lemma_arg_hit_props(p.arguments, name);
        match arg_hit(p.arguments, name) {
            Some(m) => {
                assert forall|k: int|
                    0 <= k < st.used_args.push(name).len() implies exists|m2: int|
                        0 <= m2 < p.arguments.len() && (#[trigger] p.arguments[m2].title)
                            == #[trigger] st.used_args.push(name)[k] by {
                    if k < st.used_args.len() {
                        assert(st.used_args.push(name)[k] == st.used_args[k]);
                    } else {
                        assert(st.used_args.push(name)[k] == name);
                        assert(0 <= m < p.arguments.len() && p.arguments[m].title == name);
                    }
                }
            },
            None => {},
        }
    }
}

proof fn lemma_run_state_used_declared(
    p: ParserView,
    toks: Seq<Seq<char>>,
    k: int,
    j: int,
    st: MachState,
)
    requires
        k <= j,
        used_flags_declared(p, st),
        used_args_declared(p, st),
    ensures
        run_state(p, toks, k, j, st) matches Some(s) ==> used_flags_declared(p, s)
            && used_args_declared(p, s),
    decreases j - k,
{
    if k < j {
        lemma_step_used_declared(p, st, toks[k]);
        match step(p, st, toks[k]) {
            StepRes::Go(st2) => {
                lemma_run_state_used_declared(p, toks, k + 1, j, st2);
            },
            StepRes::Stop(o) => {},
        }
    }
}

proof fn lemma_unmatched_unused_flag_token_stops(p: ParserView, st: MachState, t: Seq<char>)
    requires
        is_flag_token(t),
        !st.used_flags.contains(flag_name(t)),
        forall|k: int| 0 <= k < p.flags.len() ==> lower(#[trigger] p.flags[k].title) != flag_name(t),
        flag_name(t) != "h"@,
    ensures
        step(p, st, t) == StepRes::Stop(
            SpecOutcome::Failure { kind: ErrorKind::UnknownFlag, token: t },
        ),
{
    lemma_flag_hit_props(p.flags, flag_name(t));
}

/// When the machine reaches a second occurrence of a flag name -- the
/// tokens before it parse successfully on their own -- the outcome is
/// exactly a `DuplicateFlag` failure on that occurrence.
pub proof fn lemma_duplicate_flag_yields_duplicate_flag(
    p: ParserView,
    toks: Seq<Seq<char>>,
    i: int,
    j: int,
)
    requires
        0 <= i < j < toks.len(),
        is_flag_token(toks[i]),
        is_flag_token(toks[j]),
        flag_name(toks[i]) == flag_name(toks[j]),
        spec_parse(p, toks.take(j)) is Success,
    ensures
        spec_parse(p, toks) == (SpecOutcome::Failure {
            kind: ErrorKind::DuplicateFlag,
            token: toks[j],
        }),
{
    let st0 = init_state();
    lemma_prefix_success_reaches(p, toks, 0, j, st0);
    lemma_run_state_marks_flag(p, toks, 0, i, j, st0);
    lemma_run_after_state(p, toks, 0, j, st0);
    match run_state(p, toks, 0, j, st0) {
        Some(sj) => {
            lemma_used_flag_token_stops(p, sj, toks[j]);
        },
        None => {},
    }
}

/// When the machine reaches a second occurrence of a positional argument --
/// the tokens before it parse successfully on their own, and both
/// occurrences stand where arguments are classified -- the outcome is
/// exactly a `DuplicateArgument` failure on that occurrence.
pub proof fn lemma_duplicate_argument_yields_duplicate_argument(
    p: ParserView,
    toks: Seq<Seq<char>>,
    i: int,
    j: int,
)
    requires
        0 <= i < j < toks.len(),
        !starts_marker(toks[i]),
        !starts_marker(toks[j]),
        i == 0 || !starts_marker(toks[i - 1]),
        !starts_marker(toks[j - 1]),
        lower(toks[i]) == lower(toks[j]),
        spec_parse(p, toks.take(j)) is Success,
    ensures
        spec_parse(p, toks) == (SpecOutcome::Failure {
            kind: ErrorKind::DuplicateArgument,
            token: toks[j],
        }),
{
    let st0 = init_state();
    lemma_prefix_success_reaches(p, toks, 0, j, st0);
    lemma_run_state_marks_arg(p, toks, 0, i, j, st0);
    lemma_run_state_mode(p, toks, 0, j, st0);
    lemma_run_after_state(p, toks, 0, j, st0);
    match run_state(p, toks, 0, j, st0) {
        Some(sj) => {
            lemma_used_arg_token_stops(p, sj, toks[j]);
        },
        None => {},
    }
}

/// When the machine reaches a marked token that names no declared flag and
/// is not the help alias -- the tokens before it parse successfully on
/// their own -- the outcome is exactly an `UnknownFlag` failure on that
/// token.
pub proof fn lemma_unknown_flag_yields_unknown_flag(p: ParserView, toks: Seq<Seq<char>>, i: int)
    requires
        0 <= i < toks.len(),
        is_flag_token(toks[i]),
        forall|m: int|
            0 <= m < p.flags.len() ==> lower(#[trigger] p.flags[m].title) != flag_name(toks[i]),
        flag_name(toks[i]) != "h"@,
        spec_parse(p, toks.take(i)) is Success,
    ensures
        spec_parse(p, toks) == (SpecOutcome::Failure {
            kind: ErrorKind::UnknownFlag,
            token: toks[i],
        }),
{
    let st0 = init_state();
    lemma_prefix_success_reaches(p, toks, 0, i, st0);
    lemma_run_state_used_declared(p, toks, 0, i, st0);
    lemma_run_after_state(p, toks, 0, i, st0);
    match run_state(p, toks, 0, i, st0) {
        Some(si) => {
            let name = flag_name(toks[i]);
            assert(!si.used_flags.contains(name)) by {
                if si.used_flags.contains(name) {
                    let k = choose|k: int| 0 <= k < si.used_flags.len() && si.used_flags[k] == name;
                    assert(exists|m: int|
                        0 <= m < p.flags.len() && lower(#[trigger] p.flags[m].title)
                            == si.used_flags[k]);
                }
            }
            lemma_unmatched_unused_flag_token_stops(p, si, toks[i]);
        },
        None => {},
    }
}

proof fn lemma_unmatched_unused_arg_token_stops(p: ParserView, st: MachState, t: Seq<char>)
    requires
        !starts_marker(t),
        st.mode is Expecting || st.mode is AfterZero,
        !st.used_args.contains(lower(t)),
        forall|m: int| 0 <= m < p.arguments.len() ==> (#[trigger] p.arguments[m].title) != lower(t),
    ensures
        step(p, st, t) == StepRes::Stop(
            SpecOutcome::Failure {
                kind: if st.mode is AfterZero {
                    ErrorKind::FlagTakesNoOption
                } else {
                    ErrorKind::UnknownArgument
                },
                token: t,
            },
        ),
{
    lemma_arg_hit_props(p.arguments, lower(t));
}

/// When the machine reaches an unmarked token that names no declared
/// argument -- the tokens before it parse successfully on their own, and
/// the token stands where an argument is classified -- the outcome is
/// exactly an `UnknownArgument` failure on that token.
pub proof fn lemma_unknown_argument_yields_unknown_argument(
    p: ParserView,
    toks: Seq<Seq<char>>,
    i: int,
)
    requires
        0 <= i < toks.len(),
        !starts_marker(toks[i]),
        i == 0 || !starts_marker(toks[i - 1]),
        forall|m: int|
            0 <= m < p.arguments.len() ==> (#[trigger] p.arguments[m].title) != lower(toks[i]),
        spec_parse(p, toks.take(i)) is Success,
    ensures
        spec_parse(p, toks) == (SpecOutcome::Failure {
            kind: ErrorKind::UnknownArgument,
            token: toks[i],
        }),
{
    let st0 = init_state();
    lemma_prefix_success_reaches(p, toks, 0, i, st0);
    lemma_run_state_used_declared(p, toks, 0, i, st0);
    if i > 0 {
        lemma_run_state_mode(p, toks, 0, i, st0);
    }
    lemma_run_after_state(p, toks, 0, i, st0);
    match run_state(p, toks, 0, i, st0) {
        Some(si) => {
            let name = lower(toks[i]);
            assert(!si.used_args.contains(name)) by {
                if si.used_args.contains(name) {
                    let k = choose|k: int| 0 <= k < si.used_args.len() && si.used_args[k] == name;
                    assert(exists|m: int|
                        0 <= m < p.arguments.len() && (#[trigger] p.arguments[m].title)
                            == si.used_args[k]);
                }
            }
            lemma_unmatched_unused_arg_token_stops(p, si, toks[i]);
        },
        None => {},
    }
}

proof fn lemma_zero_slot_flag_go_afterzero(p: ParserView, st: MachState, t: Seq<char>)
    requires
        is_flag_token(t),
        flag_hit(p.flags, flag_name(t)) matches Some(m) && p.flags[m].options.len() == 0,
    ensures
        step(p, st, t) matches StepRes::Go(st2) ==> st2.mode is AfterZero,
{
}

/// When the machine reaches an unmarked token that names no declared
/// argument directly after a token naming a declared zero-slot flag -- the
/// tokens before it parse successfully on their own -- the outcome is
/// exactly a `FlagTakesNoOption` failure on that token.
pub proof fn lemma_value_after_zero_slot_flag_refused(p: ParserView, toks: Seq<Seq<char>>, i: int)
    requires
        0 < i < toks.len(),
        !starts_marker(toks[i]),
        is_flag_token(toks[i - 1]),
        flag_hit(p.flags, flag_name(toks[i - 1])) matches Some(m) && p.flags[m].options.len() == 0,
        forall|m2: int|
            0 <= m2 < p.arguments.len() ==> (#[trigger] p.arguments[m2].title) != lower(toks[i]),
        spec_parse(p, toks.take(i)) is Success,
    ensures
        spec_parse(p, toks) == (SpecOutcome::Failure {
            kind: ErrorKind::FlagTakesNoOption,
            token: toks[i],
        }),
{
    let st0 = init_state();
    lemma_prefix_success_reaches(p, toks, 0, i, st0);
    lemma_run_state_used_declared(p, toks, 0, i, st0);
    lemma_run_state_compose(p, toks, 0, i - 1, i, st0);
    lemma_run_after_state(p, toks, 0, i, st0);
    match run_state(p, toks, 0, i - 1, st0) {
        Some(s1) => {
            match step(p, s1, toks[i - 1]) {
                StepRes::Go(s2) => {
                    assert(run_state(p, toks, i, i, s2) == Some(s2));
                    lemma_zero_slot_flag_go_afterzero(p, s1, toks[i - 1]);
                },
                StepRes::Stop(o) => {
                    assert(run_state(p, toks, i - 1, i, s1) is None);
                },
            }
        },
        None => {},
    }
    match run_state(p, toks, 0, i, st0) {
        Some(si) => {
            let name = lower(toks[i]);
            assert(!si.used_args.contains(name)) by {
                if si.used_args.contains(name) {
                    let k = choose|k: int| 0 <= k < si.used_args.len() && si.used_args[k] == name;
                    assert(exists|m2: int|
                        0 <= m2 < p.arguments.len() && (#[trigger] p.arguments[m2].title)
                            == si.used_args[k]);
                }
            }
            lemma_unmatched_unused_arg_token_stops(p, si, toks[i]);
        },
        None => {},
    }
}

proof fn lemma_unmatched_arg_token_stops(p: ParserView, st: MachState, t: Seq<char>)
    requires
        !starts_marker(t),
        st.mode is Expecting || st.mode is AfterZero,
        forall|m: int| 0 <= m < p.arguments.len() ==> (#[trigger] p.arguments[m].title) != lower(t),
    ensures
        step(p, st, t) matches StepRes::Stop(o) && !(o is Success),
{
    lemma_arg_hit_props(p.arguments, lower(t));
    lemma_step_stop_not_success(p, st, t);
}

proof fn lemma_run_unknown_arg(p: ParserView, toks: Seq<Seq<char>>, k: int, i: int, st: MachState)
    requires
        0 <= k <= i < toks.len(),
        !starts_marker(toks[i]),
        i == 0 || !starts_marker(toks[i - 1]),
        forall|m: int|
            0 <= m < p.arguments.len() ==> (#[trigger] p.arguments[m].title) != lower(toks[i]),
        k == i ==> (st.mode is Expecting || st.mode is AfterZero),
    ensures
        !(run(p, toks, k, st) is Success),
    decreases i - k,
{
    lemma_step_stop_not_success(p, st, toks[k]);
    if k == i {
        lemma_unmatched_arg_token_stops(p, st, toks[i]);
    } else {
        match step(p, st, toks[k]) {
            StepRes::Go(st2) => {
                if k + 1 == i {
                    lemma_nonmarker_go_expecting(p, st, toks[k]);
                }
                lemma_run_unknown_arg(p, toks, k + 1, i, st2);
            },
            StepRes::Stop(o) => {},
        }
    }
}

/// An unmarked token matching no declared argument never lets the parse
/// succeed, provided it stands where an argument is classified (not
/// directly after a marked token, whose flag could capture it as an option
/// value): when the machine reaches it, it fails as `UnknownArgument` -- or
/// as `FlagTakesNoOption` when it directly follows a zero-slot flag.
pub proof fn lemma_unknown_argument_rejected(p: ParserView, toks: Seq<Seq<char>>, i: int)
    requires
        0 <= i < toks.len(),
        !starts_marker(toks[i]),
        i == 0 || !starts_marker(toks[i - 1]),
        forall|m: int|
            0 <= m < p.arguments.len() ==> (#[trigger] p.arguments[m].title) != lower(toks[i]),
    ensures
        !(spec_parse(p, toks) is Success),
{
    lemma_run_unknown_arg(p, toks, 0, i, init_state());
}

} // verus!
