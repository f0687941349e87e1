//! Whole runs of generate: the requests a run makes, in order, for the
//! answers a driver gives.

use vstd::prelude::*;

use crate::engine::schema::FieldView;
use super::{
    advance, after_absent, after_failed, after_present, after_produced, after_written,
    first_to_produce, first_to_write, initial_state, is_invalid_held,
    lemma_answers_keep_run_well_formed, lemma_done_is_final, lemma_initial_well_formed,
    lemma_productions_in_order, lemma_step_request, lemma_survey_refusals, lemma_writes_in_order,
    none_held, phase_rank, produced_well, production_request, run_well_formed, value_at, Fault, GenerateState,
    held_at, HeldView, Mode, Phase, Request,
};

verus! {

/// How a driver answers the request a step hands out, as plain values.
pub enum Answer {
    /// The volume holds this value (`CheckValue::present`).
    Present(Seq<u8>),
    /// The volume holds nothing (`CheckValue::absent`).
    Absent,
    /// These bytes were drawn (`DrawEntropy::filled`).
    Filled(Seq<u8>),
    /// This is the passphrase's crypt record (`GetHashedPassphrase::hashed`).
    Hashed(Seq<u8>),
    /// The value was written (`WriteValue::written`).
    Written,
    /// The request could not be carried out, and why (`failed`).
    Failed(Seq<char>),
}

/// The state a run is left in when `answer` answers `request`, made in state
/// `s`. An answer the request's handle does not offer changes nothing.
pub open spec fn respond(
    fields: Seq<FieldView>,
    s: GenerateState,
    request: Request,
    answer: Answer,
) -> GenerateState {
    match request {
        Request::Check(at) => match answer {
            Answer::Present(v) => after_present(s, at, fields[at as int], v),
            Answer::Absent => after_absent(s, at),
            Answer::Failed(why) => after_failed(s, fields[at as int], why),
            _ => s,
        },
        Request::Draw { at, build, .. } => match answer {
            Answer::Filled(e) => after_produced(s, at, fields[at as int], build.spec_apply(e)),
            Answer::Failed(why) => after_failed(s, fields[at as int], why),
            _ => s,
        },
        Request::Hash(at) => match answer {
            Answer::Hashed(r) => after_produced(s, at, fields[at as int], r),
            Answer::Failed(why) => after_failed(s, fields[at as int], why),
            _ => s,
        },
        Request::Write(at) => match answer {
            Answer::Written => after_written(s, at),
            Answer::Failed(why) => after_failed(s, fields[at as int], why),
            _ => s,
        },
        Request::Done(_) => s,
    }
}

/// The state a run reaches from `s` once `answers` have answered its
/// requests, one each, in order. Answers given after the run ended are not
/// asked for, and change nothing.
pub open spec fn replay(fields: Seq<FieldView>, s: GenerateState, answers: Seq<Answer>) -> GenerateState
    decreases answers.len(),
{
    if answers.len() == 0 {
        s
    } else {
        let (next, request) = advance(fields, replay(fields, s, answers.drop_last()));
        if request is Done {
            next
        } else {
            respond(fields, next, request, answers.last())
        }
    }
}

/// The step a run takes from `s` once the first `k` answers are given: the
/// request it hands out, and the state of the run the request's handle holds.
pub open spec fn nth_step(fields: Seq<FieldView>, s: GenerateState, answers: Seq<Answer>, k: nat) -> (
    GenerateState,
    Request,
) {
    advance(fields, replay(fields, s, answers.take(k as int)))
}

/// The request a run hands out from `s` once the first `k` answers are given.
pub open spec fn nth_request(fields: Seq<FieldView>, s: GenerateState, answers: Seq<Answer>, k: nat) -> Request {
    nth_step(fields, s, answers, k).1
}

/// The run's state after `k + 1` answers follows from its step after `k`.
proof fn lemma_replay_next(fields: Seq<FieldView>, s: GenerateState, answers: Seq<Answer>, k: nat)
    requires
        k < answers.len(),
    ensures
        replay(fields, s, answers.take(k + 1 as int)) == ({
            let (next, request) = nth_step(fields, s, answers, k);
            if request is Done {
                next
            } else {
                respond(fields, next, request, answers[k as int])
            }
        }),
{
    assert(answers.take(k + 1 as int).drop_last() =~= answers.take(k as int));
    assert(answers.take(k + 1 as int).last() == answers[k as int]);
}

/// Answering a request leaves a well-formed run well formed, and never moves
/// it back to an earlier phase.
proof fn lemma_respond(fields: Seq<FieldView>, s: GenerateState, answer: Answer)
    requires
        run_well_formed(fields, s),
    ensures
        ({
            let (next, request) = advance(fields, s);
            let after = if request is Done {
                next
            } else {
                respond(fields, next, request, answer)
            };
            &&& run_well_formed(fields, after)
            &&& phase_rank(after.phase) <= phase_rank(next.phase)
        }),
{
    lemma_step_request(fields, s);
    let (next, request) = advance(fields, s);
    if !(request is Done) {
        let (value, why) = match answer {
            Answer::Present(v) => (v, Seq::<char>::empty()),
            Answer::Filled(e) => (
                match request {
                    Request::Draw { build, .. } => build.spec_apply(e),
                    _ => e,
                },
                Seq::<char>::empty(),
            ),
            Answer::Hashed(r) => (r, Seq::<char>::empty()),
            Answer::Failed(w) => (Seq::<u8>::empty(), w),
            _ => (Seq::<u8>::empty(), Seq::<char>::empty()),
        };
        lemma_answers_keep_run_well_formed(fields, next, request, value, why);
    }
}

/// Every state a run reaches from a well-formed state is well formed.
pub proof fn lemma_replay_well_formed(fields: Seq<FieldView>, s: GenerateState, answers: Seq<Answer>)
    requires
        run_well_formed(fields, s),
    ensures
        run_well_formed(fields, replay(fields, s, answers)),
    decreases answers.len(),
{
    if answers.len() > 0 {
        lemma_replay_well_formed(fields, s, answers.drop_last());
        lemma_respond(fields, replay(fields, s, answers.drop_last()), answers.last());
    }
}

/// Once a run hands out `Done`, it is over: every later step hands out a
/// successful `Done` and leaves the run as that step left it.
pub proof fn lemma_ended_run_stays_ended(
    fields: Seq<FieldView>,
    s: GenerateState,
    answers: Seq<Answer>,
    k: nat,
    j: nat,
)
    requires
        run_well_formed(fields, s),
        k < j <= answers.len(),
        nth_request(fields, s, answers, k) is Done,
    ensures
        nth_step(fields, s, answers, j) == (
            nth_step(fields, s, answers, k).0,
            Request::Done(Ok(())),
        ),
    decreases j - k,
{
    lemma_replay_next(fields, s, answers, (j - 1) as nat);
    lemma_replay_well_formed(fields, s, answers.take(k as int));
    lemma_done_is_final(fields, replay(fields, s, answers.take(k as int)));
    if j > k + 1 {
        lemma_ended_run_stays_ended(fields, s, answers, k, (j - 1) as nat);
    }
}

/// How far along a run a request stands: checks first, then productions,
/// then writes, then the end.
pub open spec fn request_rank(request: Request) -> nat {
    match request {
        Request::Check(_) => 3,
        Request::Draw { .. } => 2,
        Request::Hash(_) => 2,
        Request::Write(_) => 1,
        Request::Done(_) => 0,
    }
}

/// A request's rank is that of the phase its handle's run is in.
proof fn lemma_request_rank(fields: Seq<FieldView>, s: GenerateState)
    requires
        run_well_formed(fields, s),
    ensures
        request_rank(advance(fields, s).1) == phase_rank(advance(fields, s).0.phase),
{
    lemma_step_request(fields, s);
}

/// A run never goes back: whatever the answers, no request ranks after one
/// made later. So no value is asked for once writing began, and nothing is
/// checked once production began.
pub proof fn lemma_requests_move_forward(
    fields: Seq<FieldView>,
    s: GenerateState,
    answers: Seq<Answer>,
    i: nat,
    j: nat,
)
    requires
        run_well_formed(fields, s),
        i <= j <= answers.len(),
    ensures
        request_rank(nth_request(fields, s, answers, j)) <= request_rank(
            nth_request(fields, s, answers, i),
        ),
    decreases j - i,
{
    if i < j {
        lemma_requests_move_forward(fields, s, answers, i, (j - 1) as nat);
        let k = (j - 1) as nat;
        lemma_replay_next(fields, s, answers, k);
        lemma_replay_well_formed(fields, s, answers.take(k as int));
        lemma_replay_well_formed(fields, s, answers.take(j as int));
        lemma_respond(fields, replay(fields, s, answers.take(k as int)), answers[k as int]);
        lemma_step_request(fields, replay(fields, s, answers.take(j as int)));
        lemma_request_rank(fields, replay(fields, s, answers.take(k as int)));
        lemma_request_rank(fields, replay(fields, s, answers.take(j as int)));
    }
}

/// The answer reports what a check found.
pub open spec fn is_check_answer(answer: Answer) -> bool {
    answer is Present || answer is Absent
}

/// Which of `n` fields the first `k` answers found held.
pub open spec fn found_held(answers: Seq<Answer>, n: nat, k: nat) -> Seq<bool> {
    Seq::new(n, |i: int| i < k && answers[i] is Present)
}

/// The values the first `upto` answers found, in order, each with its field's
/// path and what its field's type makes of it.
pub open spec fn found_values(fields: Seq<FieldView>, answers: Seq<Answer>, upto: nat) -> Seq<HeldView>
    decreases upto,
{
    if upto == 0 {
        Seq::empty()
    } else {
        let prev = found_values(fields, answers, (upto - 1) as nat);
        let field = fields[upto - 1];
        match answers[upto - 1] {
            Answer::Present(v) => prev.push(
                HeldView {
                    path: field.path,
                    invalid: match field.kind.validity(v) {
                        Ok(()) => None,
                        Err(e) => Some(e),
                    },
                },
            ),
            _ => prev,
        }
    }
}

/// A new run checks the fields first, one request each, in declaration order:
/// while its checks are answered by what the volume holds, the first requests
/// are the checks of the fields in order, and nothing else comes before them.
/// After `k` such answers the run has recorded exactly what they found.
pub proof fn lemma_checks_come_first(
    fields: Seq<FieldView>,
    mode: Mode,
    answers: Seq<Answer>,
    k: nat,
)
    requires
        k <= fields.len(),
        k <= answers.len(),
        forall|j: int| 0 <= j < k ==> is_check_answer(#[trigger] answers[j]),
    ensures
        ({
            let s0 = initial_state(mode, fields.len());
            &&& forall|i: nat|
                i < k ==> #[trigger] nth_request(fields, s0, answers, i) == Request::Check(i)
            &&& k < fields.len() ==> nth_request(fields, s0, answers, k) == Request::Check(k)
            &&& replay(fields, s0, answers.take(k as int)) == GenerateState {
                phase: Phase::CheckField(k),
                present: found_values(fields, answers, k),
                held: found_held(answers, fields.len(), k),
                ..s0
            }
        }),
    decreases k,
{
    let n = fields.len();
    let s0 = initial_state(mode, n);
    if k == 0 {
        assert(answers.take(0) =~= Seq::<Answer>::empty());
        assert(s0.held =~= found_held(answers, n, 0));
    } else {
        let p = (k - 1) as nat;
        lemma_checks_come_first(fields, mode, answers, p);
        lemma_replay_next(fields, s0, answers, p);
        let before = replay(fields, s0, answers.take(p as int));
        let after = replay(fields, s0, answers.take(k as int));
        assert(after.held =~= found_held(answers, n, k));
        assert(after == GenerateState {
            phase: Phase::CheckField(k),
            present: found_values(fields, answers, k),
            held: found_held(answers, n, k),
            ..s0
        });
        assert forall|i: nat| i < k implies #[trigger] nth_request(fields, s0, answers, i)
            == Request::Check(i) by {
            if i < p {
                assert(nth_request(fields, s0, answers, i) == Request::Check(i));
            }
        }
    }
}

/// No value was found exactly when no answer among the first `upto` found one.
proof fn lemma_found_none(fields: Seq<FieldView>, answers: Seq<Answer>, upto: nat)
    ensures
        found_values(fields, answers, upto).len() == 0 <==> forall|i: int|
            0 <= i < upto ==> !(#[trigger] answers[i] is Present),
    decreases upto,
{
    if upto > 0 {
        lemma_found_none(fields, answers, (upto - 1) as nat);
        if !(answers[upto - 1] is Present) {
            assert forall|i: int| 0 <= i < upto && (forall|j: int| 0 <= j < upto - 1 ==> !(#[trigger] answers[j] is Present)) implies !(#[trigger] answers[i] is Present) by {
                if i < upto - 1 {
                    assert(!(answers[i] is Present));
                }
            }
        }
    }
}

/// Where no field from `at` on has a value, none is left to write.
proof fn lemma_nothing_to_write(values: Seq<Option<Seq<u8>>>, at: nat, n: nat)
    requires
        forall|i: nat| at <= i < n ==> (#[trigger] value_at(values, i)) is None,
    ensures
        first_to_write(values, at, n) is None,
    decreases n - at,
{
    if at < n {
        lemma_nothing_to_write(values, at + 1, n);
    }
}

/// The request a run makes once the survey has passed: it produces a value
/// for the first field that is neither optional nor held, or, when there is
/// none, ends successfully.
pub open spec fn first_production(fields: Seq<FieldView>, held: Seq<bool>) -> Request {
    match first_to_produce(fields, held, 0) {
        Some(j) => production_request(fields, j),
        None => Request::Done(Ok(())),
    }
}

/// Once a new run's checks are answered by what the volume holds, the next
/// request settles the survey. A run that populates is refused if any value
/// was found, and the refusal lists them all, in declaration order, optional
/// fields included. A run that upgrades is refused if any value found is one
/// its type refuses, and the refusal lists exactly those, in order. Any other
/// run is not refused: it goes on to its first production.
pub proof fn lemma_survey_after_checks(fields: Seq<FieldView>, mode: Mode, answers: Seq<Answer>)
    requires
        fields.len() <= answers.len(),
        forall|j: int| 0 <= j < fields.len() ==> is_check_answer(#[trigger] answers[j]),
    ensures
        ({
            let n = fields.len();
            let request = nth_request(fields, initial_state(mode, n), answers, n);
            let found = found_values(fields, answers, n);
            let refused = found.filter(is_invalid_held());
            &&& mode == Mode::Populate && found.len() > 0 ==> request == Request::Done(
                Err(Fault::AlreadyHeld(found)),
            )
            &&& mode == Mode::Upgrade && refused.len() > 0 ==> request == Request::Done(
                Err(Fault::InvalidValues(refused)),
            )
            &&& (mode == Mode::Populate && found.len() == 0) || (mode == Mode::Upgrade
                && refused.len() == 0) ==> request == first_production(
                fields,
                found_held(answers, n, n),
            )
        }),
{
    let n = fields.len();
    let s0 = initial_state(mode, n);
    lemma_checks_come_first(fields, mode, answers, n);
    lemma_initial_well_formed(mode, fields);
    lemma_replay_well_formed(fields, s0, answers.take(n as int));
    let s = replay(fields, s0, answers.take(n as int));
    lemma_survey_refusals(fields, s);
    lemma_found_none(fields, answers, n);
    let found = found_values(fields, answers, n);
    if mode == Mode::Populate && found.len() > 0 {
        let i = choose|i: int| 0 <= i < n && #[trigger] answers[i] is Present;
        assert(s.held[i]);
    }
    if mode == Mode::Populate && found.len() == 0 {
        assert forall|i: int| 0 <= i < s.held.len() implies !#[trigger] s.held[i] by {
            assert(!(answers[i] is Present));
        }
        assert(none_held(s.held));
    }
    if (mode == Mode::Populate && found.len() == 0) || (mode == Mode::Upgrade
        && found.filter(is_invalid_held()).len() == 0) {
        let t = GenerateState { present: Seq::empty(), phase: Phase::MakeField(0), ..s };
        lemma_productions_in_order(fields, t, 0);
        if first_to_produce(fields, t.held, 0) is None {
            let w = GenerateState {
                values: t.values + Seq::new(n, |i: int| None::<Seq<u8>>),
                phase: Phase::WriteField(0),
                ..t
            };
            lemma_writes_in_order(fields, w, 0);
            lemma_nothing_to_write(w.values, 0, n);
        }
    }
}

/// The field a request is about, by position, if it is about one.
pub open spec fn request_at(request: Request) -> Option<nat> {
    match request {
        Request::Check(at) => Some(at),
        Request::Draw { at, .. } => Some(at),
        Request::Hash(at) => Some(at),
        Request::Write(at) => Some(at),
        Request::Done(_) => None,
    }
}

/// The value `answer` produces when it answers the production `request`.
pub open spec fn produced_value(request: Request, answer: Answer) -> Option<Seq<u8>> {
    match request {
        Request::Draw { build, .. } => match answer {
            Answer::Filled(e) => Some(build.spec_apply(e)),
            _ => None,
        },
        Request::Hash(_) => match answer {
            Answer::Hashed(r) => Some(r),
            _ => None,
        },
        _ => None,
    }
}

/// The failure a run ends with when `answer` answers `request`, if it ends
/// with one: the request failed, or it produced a value the field's type
/// refuses.
pub open spec fn answer_fault(fields: Seq<FieldView>, request: Request, answer: Answer) -> Option<
    Fault,
> {
    match request_at(request) {
        None => None,
        Some(at) => match answer {
            Answer::Failed(why) => Some(Fault::Failed { path: fields[at as int].path, why }),
            _ => match produced_value(request, answer) {
                Some(v) => match fields[at as int].kind.validity(v) {
                    Ok(()) => None,
                    Err(reason) => Some(Fault::Unusable { path: fields[at as int].path, reason }),
                },
                None => None,
            },
        },
    }
}

/// A failed request, or a produced value its field's type refuses, ends a
/// run: the next step reports that failure, naming the field, and every
/// later one reports the run over. When it was a check or a production that
/// failed, no value is ever written in the whole run: every value is produced
/// before any is written.
pub proof fn lemma_failure_ends_run(
    fields: Seq<FieldView>,
    mode: Mode,
    answers: Seq<Answer>,
    k: nat,
)
    requires
        k < answers.len(),
        answer_fault(
            fields,
            nth_request(fields, initial_state(mode, fields.len()), answers, k),
            answers[k as int],
        ) is Some,
    ensures
        ({
            let s0 = initial_state(mode, fields.len());
            let request = nth_request(fields, s0, answers, k);
            let fault = answer_fault(fields, request, answers[k as int])->0;
            &&& nth_request(fields, s0, answers, k + 1) == Request::Done(Err(fault))
            &&& forall|j: nat|
                k + 1 < j <= answers.len() ==> #[trigger] nth_request(fields, s0, answers, j)
                    == Request::Done(Ok(()))
            &&& !(request is Write) ==> forall|j: nat|
                j <= answers.len() ==> !(#[trigger] nth_request(fields, s0, answers, j) is Write)
        }),
{
    let n = fields.len();
    let s0 = initial_state(mode, n);
    lemma_initial_well_formed(mode, fields);
    lemma_replay_next(fields, s0, answers, k);
    let request = nth_request(fields, s0, answers, k);
    assert forall|j: nat| k + 1 < j <= answers.len() implies #[trigger] nth_request(
        fields,
        s0,
        answers,
        j,
    ) == Request::Done(Ok(())) by {
        lemma_ended_run_stays_ended(fields, s0, answers, k + 1, j);
    }
    if !(request is Write) {
        assert forall|j: nat| j <= answers.len() implies !(#[trigger] nth_request(
            fields,
            s0,
            answers,
            j,
        ) is Write) by {
            if j <= k {
                lemma_requests_move_forward(fields, s0, answers, j, k);
            }
        }
    }
}

/// The field at `i` gets a value produced: it is neither optional nor held.
pub open spec fn wants_value(fields: Seq<FieldView>, held: Seq<bool>, i: nat) -> bool {
    !fields[i as int].optional && !held_at(held, i)
}

/// The positions, among the first `upto` fields, of those that get a value
/// produced, in declaration order.
pub open spec fn to_produce(fields: Seq<FieldView>, held: Seq<bool>, upto: nat) -> Seq<nat>
    decreases upto,
{
    if upto == 0 {
        Seq::empty()
    } else {
        let prev = to_produce(fields, held, (upto - 1) as nat);
        if wants_value(fields, held, (upto - 1) as nat) {
            prev.push((upto - 1) as nat)
        } else {
            prev
        }
    }
}

/// The list for fewer fields begins the list for more, and every position
/// listed is below the count of fields looked at.
proof fn lemma_to_produce_prefix(fields: Seq<FieldView>, held: Seq<bool>, u: nat, v: nat)
    requires
        u <= v,
    ensures
        to_produce(fields, held, u).len() <= to_produce(fields, held, v).len(),
        forall|t: int|
            0 <= t < to_produce(fields, held, u).len() ==> #[trigger] to_produce(fields, held, v)[t]
                == to_produce(fields, held, u)[t],
        forall|t: int|
            0 <= t < to_produce(fields, held, v).len() ==> #[trigger] to_produce(
                fields,
                held,
                v,
            )[t] < v,
    decreases v,
{
    if v > 0 {
        let w = (v - 1) as nat;
        if u < v {
            lemma_to_produce_prefix(fields, held, u, w);
        } else {
            lemma_to_produce_prefix(fields, held, w, w);
        }
    }
}

/// Positions none of which gets a value add nothing to the list.
proof fn lemma_to_produce_skip(fields: Seq<FieldView>, held: Seq<bool>, a: nat, j: nat)
    requires
        a <= j,
        forall|k: nat| a <= k < j ==> !#[trigger] wants_value(fields, held, k),
    ensures
        to_produce(fields, held, j) == to_produce(fields, held, a),
    decreases j - a,
{
    if a < j {
        lemma_to_produce_skip(fields, held, a, (j - 1) as nat);
    }
}

/// What the search for the next field to produce a value for finds.
proof fn lemma_first_to_produce(fields: Seq<FieldView>, held: Seq<bool>, a: nat)
    ensures
        match first_to_produce(fields, held, a) {
            Some(j) => {
                &&& a <= j < fields.len()
                &&& wants_value(fields, held, j)
                &&& forall|k: nat| a <= k < j ==> !#[trigger] wants_value(fields, held, k)
            },
            None => forall|k: nat| a <= k < fields.len() ==> !#[trigger] wants_value(fields, held, k),
        },
    decreases fields.len() - a,
{
    if a < fields.len() && !wants_value(fields, held, a) {
        lemma_first_to_produce(fields, held, a + 1);
        assert forall|k: nat| a <= k < fields.len() && (match first_to_produce(fields, held, a) {
            Some(j) => k < j,
            None => true,
        }) implies !#[trigger] wants_value(fields, held, k) by {
            if k > a {
                assert(a + 1 <= k);
            }
        }
    }
}

/// From any position, the next field a value is produced for is the next one
/// the list names: once `to_produce(a)` has `t` entries, it is the list's
/// entry `t`, or none when the list has no more.
proof fn lemma_next_listed(fields: Seq<FieldView>, held: Seq<bool>, a: nat)
    requires
        a <= fields.len(),
    ensures
        ({
            let listed = to_produce(fields, held, fields.len());
            let t = to_produce(fields, held, a).len();
            match first_to_produce(fields, held, a) {
                Some(j) => {
                    &&& t < listed.len()
                    &&& listed[t as int] == j
                    &&& to_produce(fields, held, j + 1).len() == t + 1
                },
                None => t == listed.len(),
            }
        }),
{
    let n = fields.len();
    lemma_first_to_produce(fields, held, a);
    match first_to_produce(fields, held, a) {
        Some(j) => {
            lemma_to_produce_skip(fields, held, a, j);
            lemma_to_produce_prefix(fields, held, j + 1, n);
            let t = to_produce(fields, held, a).len();
            assert(to_produce(fields, held, j + 1)[t as int] == j);
        },
        None => {
            lemma_to_produce_skip(fields, held, a, n);
        },
    }
}

/// Where a value was produced exactly for the fields that want one, the next
/// value to write is the next field that wants one.
proof fn lemma_write_follows_production(
    fields: Seq<FieldView>,
    held: Seq<bool>,
    values: Seq<Option<Seq<u8>>>,
    at: nat,
)
    requires
        forall|i: nat|
            i < fields.len() ==> ((#[trigger] value_at(values, i)) is Some <==> wants_value(
                fields,
                held,
                i,
            )),
    ensures
        first_to_write(values, at, fields.len()) == first_to_produce(fields, held, at),
    decreases fields.len() - at,
{
    if at < fields.len() {
        lemma_write_follows_production(fields, held, values, at + 1);
        assert(value_at(values, at) is Some <==> wants_value(fields, held, at));
    }
}

/// The positions of the fields a new run produces a value for, given the
/// answers to its checks: the required fields found absent, in declaration
/// order.
pub open spec fn listed_for_production(fields: Seq<FieldView>, answers: Seq<Answer>) -> Seq<nat> {
    to_produce(fields, found_held(answers, fields.len(), fields.len()), fields.len())
}

/// The survey of a new run whose checks the first answers answered lets the
/// run through: populating, nothing was found; upgrading, nothing found is
/// refused by its type.
pub open spec fn survey_passes(fields: Seq<FieldView>, mode: Mode, answers: Seq<Answer>) -> bool {
    let found = found_values(fields, answers, fields.len());
    ||| mode == Mode::Populate && found.len() == 0
    ||| mode == Mode::Upgrade && found.filter(is_invalid_held()).len() == 0
}

/// The value the answer to a new run's production number `t` gives.
pub open spec fn answered_value(fields: Seq<FieldView>, answers: Seq<Answer>, t: nat) -> Option<
    Seq<u8>,
> {
    let listed = listed_for_production(fields, answers);
    produced_value(production_request(fields, listed[t as int]), answers[fields.len() + t as int])
}

/// Answers under which a new run goes through: every check is answered by
/// what the volume holds, the survey passes, every production is answered by
/// a value its field's type accepts, and every write is carried out.
pub open spec fn answers_succeed(fields: Seq<FieldView>, mode: Mode, answers: Seq<Answer>) -> bool {
    let n = fields.len();
    let listed = listed_for_production(fields, answers);
    let m = listed.len();
    &&& n + 2 * m <= answers.len()
    &&& forall|j: int| 0 <= j < n ==> is_check_answer(#[trigger] answers[j])
    &&& survey_passes(fields, mode, answers)
    &&& forall|t: nat|
        t < m ==> (#[trigger] answered_value(fields, answers, t) matches Some(v)
            && fields[listed[t as int] as int].kind.validity(v) is Ok)
    &&& forall|t: int| 0 <= t < m ==> #[trigger] answers[n + m + t] is Written
}

/// The production phase of a run under succeeding answers: after `t`
/// productions, the run stands before the next, having asked for the first
/// `t` listed fields' values, in order, and kept each.
proof fn lemma_production_phase(fields: Seq<FieldView>, mode: Mode, answers: Seq<Answer>, t: nat) -> (state: GenerateState)
    requires
        answers_succeed(fields, mode, answers),
        t <= listed_for_production(fields, answers).len(),
    ensures
        ({
            let n = fields.len();
            let s0 = initial_state(mode, n);
            let listed = listed_for_production(fields, answers);
            &&& nth_step(fields, s0, answers, n + t) == advance(fields, state)
            &&& run_well_formed(fields, state)
            &&& state.failure is None
            &&& state.mode == mode
            &&& state.held == found_held(answers, n, n)
            &&& state.phase matches Phase::MakeField(a) && to_produce(
                fields,
                state.held,
                a,
            ).len() == t
            &&& forall|j: nat|
                j < t ==> value_at(state.values, #[trigger] listed[j as int])
                    == answered_value(fields, answers, j)
            &&& forall|j: nat|
                j < t ==> #[trigger] nth_request(fields, s0, answers, n + j) == production_request(
                    fields,
                    listed[j as int],
                )
        }),
    decreases t,
{
    let n = fields.len();
    let s0 = initial_state(mode, n);
    let listed = listed_for_production(fields, answers);
    let held = found_held(answers, n, n);
    lemma_initial_well_formed(mode, fields);
    if t == 0 {
        lemma_checks_come_first(fields, mode, answers, n);
        lemma_replay_well_formed(fields, s0, answers.take(n as int));
        let sn = replay(fields, s0, answers.take(n as int));
        lemma_survey_refusals(fields, sn);
        lemma_found_none(fields, answers, n);
        if mode == Mode::Populate {
            assert forall|i: int| 0 <= i < sn.held.len() implies !#[trigger] sn.held[i] by {
                assert(!(answers[i] is Present));
            }
            assert(none_held(sn.held));
        }
        let state = GenerateState { present: Seq::empty(), phase: Phase::MakeField(0), ..sn };
        assert(run_well_formed(fields, state));
        state
    } else {
        let p = (t - 1) as nat;
        let prev = lemma_production_phase(fields, mode, answers, p);
        let a = prev.phase->MakeField_0;
        lemma_next_listed(fields, held, a);
        lemma_first_to_produce(fields, held, a);
        let j = first_to_produce(fields, held, a)->0;
        lemma_productions_in_order(fields, prev, a);
        let made = GenerateState {
            values: prev.values + Seq::new((j - a) as nat, |i: int| None::<Seq<u8>>),
            phase: Phase::MakeField(j),
            ..prev
        };
        assert(advance(fields, made) == (made, production_request(fields, j)));
        lemma_replay_next(fields, s0, answers, n + p);
        let v = answered_value(fields, answers, p)->0;
        assert(answered_value(fields, answers, p) == Some(v));
        let state = replay(fields, s0, answers.take((n + t) as int));
        assert(state == GenerateState {
            values: made.values.push(Some(v)),
            phase: Phase::MakeField(j + 1),
            ..made
        });
        lemma_replay_well_formed(fields, s0, answers.take((n + t) as int));
        lemma_to_produce_prefix(fields, held, a, n);
        assert forall|i: nat| i < t implies value_at(state.values, #[trigger] listed[i as int])
            == answered_value(fields, answers, i) by {
            if i < p {
                assert(listed[i as int] == to_produce(fields, held, a)[i as int]);
                assert(listed[i as int] < a);
                assert(value_at(prev.values, listed[i as int]) == answered_value(fields, answers, i));
            }
        }
        assert forall|i: nat| i < t implies #[trigger] nth_request(fields, s0, answers, n + i)
            == production_request(fields, listed[i as int]) by {
            if i < p {
                assert(nth_request(fields, s0, answers, n + i) == production_request(
                    fields,
                    listed[i as int],
                ));
            }
        }
        state
    }
}

/// Where the write phase of a run under succeeding answers begins.
proof fn lemma_writes_begin(fields: Seq<FieldView>, mode: Mode, answers: Seq<Answer>) -> (state: GenerateState)
    requires
        answers_succeed(fields, mode, answers),
    ensures
        ({
            let n = fields.len();
            let s0 = initial_state(mode, n);
            let listed = listed_for_production(fields, answers);
            let m = listed.len();
            let held = found_held(answers, n, n);
            &&& nth_step(fields, s0, answers, n + m) == advance(fields, state)
            &&& state.failure is None
            &&& state.phase == Phase::WriteField(0)
            &&& forall|i: nat|
                i < n ==> ((#[trigger] value_at(state.values, i)) is Some <==> wants_value(
                    fields,
                    held,
                    i,
                ))
            &&& forall|j: nat|
                j < m ==> value_at(state.values, #[trigger] listed[j as int]) == answered_value(
                    fields,
                    answers,
                    j,
                )
        }),
{
    let n = fields.len();
    let listed = listed_for_production(fields, answers);
    let m = listed.len();
    let held = found_held(answers, n, n);
    let made = lemma_production_phase(fields, mode, answers, m);
    let a = made.phase->MakeField_0;
    lemma_next_listed(fields, held, a);
    lemma_first_to_produce(fields, held, a);
    lemma_productions_in_order(fields, made, a);
    lemma_to_produce_prefix(fields, held, a, n);
    let state = GenerateState {
        values: made.values + Seq::new((n - a) as nat, |i: int| None::<Seq<u8>>),
        phase: Phase::WriteField(0),
        ..made
    };
    assert forall|i: nat| i < n implies ((#[trigger] value_at(state.values, i)) is Some
        <==> wants_value(fields, held, i)) by {
        if i < a {
            assert(value_at(state.values, i) == value_at(made.values, i));
            assert(run_well_formed(fields, made));
            assert(made.phase == Phase::MakeField(a));
            assert(produced_well(fields, made, a));
            let k = i as int;
            assert(0 <= k < a);
            assert(value_at(made.values, k as nat) is Some <==> (!fields[k].optional && !held_at(
                made.held,
                k as nat,
            )));
        } else {
            assert(value_at(state.values, i) is None);
        }
    }
    assert forall|j: nat| j < m implies value_at(state.values, #[trigger] listed[j as int])
        == answered_value(fields, answers, j) by {
        assert(listed[j as int] == to_produce(fields, held, a)[j as int]);
        assert(listed[j as int] < a);
        assert(value_at(state.values, listed[j as int]) == value_at(made.values, listed[j as int]));
    }
    state
}

/// The write phase of a run under succeeding answers: after `t` writes, the
/// run stands before the next, having written the first `t` listed fields,
/// in order, each with the value produced for it.
#[verifier::spinoff_prover]
#[verifier::rlimit(40)]
proof fn lemma_write_phase(fields: Seq<FieldView>, mode: Mode, answers: Seq<Answer>, t: nat) -> (state: GenerateState)
    requires
        answers_succeed(fields, mode, answers),
        t <= listed_for_production(fields, answers).len(),
    ensures
        ({
            let n = fields.len();
            let s0 = initial_state(mode, n);
            let listed = listed_for_production(fields, answers);
            let m = listed.len();
            let held = found_held(answers, n, n);
            &&& nth_step(fields, s0, answers, n + m + t) == advance(fields, state)
            &&& state.failure is None
            &&& state.phase matches Phase::WriteField(b) && b <= n && to_produce(
                fields,
                held,
                b,
            ).len() == t
            &&& forall|i: nat|
                i < n ==> ((#[trigger] value_at(state.values, i)) is Some <==> wants_value(
                    fields,
                    held,
                    i,
                ))
            &&& forall|j: nat|
                j < m ==> value_at(state.values, #[trigger] listed[j as int]) == answered_value(
                    fields,
                    answers,
                    j,
                )
            &&& forall|j: nat|
                j < t ==> {
                    &&& #[trigger] nth_request(fields, s0, answers, n + m + j) == Request::Write(
                        listed[j as int],
                    )
                    &&& value_at(nth_step(fields, s0, answers, n + m + j).0.values, listed[j as int])
                        == answered_value(fields, answers, j)
                }
        }),
    decreases t,
{
    let n = fields.len();
    let s0 = initial_state(mode, n);
    let listed = listed_for_production(fields, answers);
    let m = listed.len();
    let held = found_held(answers, n, n);
    lemma_initial_well_formed(mode, fields);
    if t == 0 {
        lemma_writes_begin(fields, mode, answers)
    } else {
        let p = (t - 1) as nat;
        let prev = lemma_write_phase(fields, mode, answers, p);
        let b = prev.phase->WriteField_0;
        lemma_write_follows_production(fields, held, prev.values, b);
        lemma_next_listed(fields, held, b);
        lemma_first_to_produce(fields, held, b);
        let j = first_to_produce(fields, held, b)->0;
        lemma_writes_in_order(fields, prev, b);
        assert(answers[(n + m + p) as int] is Written);
        lemma_replay_next(fields, s0, answers, n + m + p);
        let state = replay(fields, s0, answers.take((n + m + t) as int));
        assert(state == GenerateState { phase: Phase::WriteField(j + 1), ..prev });
        assert forall|i: nat| i < t implies {
            &&& #[trigger] nth_request(fields, s0, answers, n + m + i) == Request::Write(
                listed[i as int],
            )
            &&& value_at(nth_step(fields, s0, answers, n + m + i).0.values, listed[i as int])
                == answered_value(fields, answers, i)
        } by {
            if i < p {
                assert(nth_request(fields, s0, answers, n + m + i) == Request::Write(
                    listed[i as int],
                ));
            }
        }
        state
    }
}

/// A new run under answers that let it through goes the whole way: it checks
/// every field, in declaration order; it then asks for a value for exactly
/// the listed fields, the required fields found absent, in declaration order
/// (randomness for a machine-id, a passphrase for a hashed password); it then
/// asks to write exactly those fields, in the same order, each write handing
/// out the value produced for that field and no other; and it then ends
/// successfully.
pub proof fn lemma_successful_run(fields: Seq<FieldView>, mode: Mode, answers: Seq<Answer>)
    requires
        answers_succeed(fields, mode, answers),
    ensures
        ({
            let n = fields.len();
            let s0 = initial_state(mode, n);
            let listed = listed_for_production(fields, answers);
            let m = listed.len();
            &&& forall|i: nat| i < n ==> #[trigger] nth_request(fields, s0, answers, i) == Request::Check(i)
            &&& forall|t: nat|
                t < m ==> #[trigger] nth_request(fields, s0, answers, n + t) == production_request(
                    fields,
                    listed[t as int],
                )
            &&& forall|t: nat|
                t < m ==> {
                    &&& #[trigger] nth_request(fields, s0, answers, n + m + t) == Request::Write(
                        listed[t as int],
                    )
                    &&& value_at(nth_step(fields, s0, answers, n + m + t).0.values, listed[t as int])
                        == answered_value(fields, answers, t)
                }
            &&& nth_request(fields, s0, answers, n + 2 * m) == Request::Done(Ok(()))
        }),
{
    let n = fields.len();
    let listed = listed_for_production(fields, answers);
    let m = listed.len();
    let held = found_held(answers, n, n);
    lemma_checks_come_first(fields, mode, answers, n);
    lemma_production_phase(fields, mode, answers, m);
    let last = lemma_write_phase(fields, mode, answers, m);
    let b = last.phase->WriteField_0;
    lemma_write_follows_production(fields, held, last.values, b);
    lemma_next_listed(fields, held, b);
    lemma_writes_in_order(fields, last, b);
    assert(n + m + m == n + 2 * m);
}

/// The fields listed for production are exactly the required fields the
/// checks found absent, each once, in declaration order.
pub proof fn lemma_listed_are_missing_required(fields: Seq<FieldView>, answers: Seq<Answer>)
    requires
        fields.len() <= answers.len(),
        forall|j: int| 0 <= j < fields.len() ==> is_check_answer(#[trigger] answers[j]),
    ensures
        ({
            let listed = listed_for_production(fields, answers);
            &&& forall|t: int|
                0 <= t < listed.len() ==> {
                    &&& #[trigger] listed[t] < fields.len()
                    &&& !fields[listed[t] as int].optional
                    &&& answers[listed[t] as int] is Absent
                }
            &&& forall|i: int|
                0 <= i < fields.len() && !fields[i].optional && #[trigger] answers[i] is Absent
                    ==> listed.contains(i as nat)
            &&& forall|s: int, t: int| 0 <= s < t < listed.len() ==> listed[s] < listed[t]
        }),
{
    let n = fields.len();
    let held = found_held(answers, n, n);
    let listed = listed_for_production(fields, answers);
    lemma_listing(fields, held, n);
    assert forall|t: int| 0 <= t < listed.len() implies {
        &&& #[trigger] listed[t] < fields.len()
        &&& !fields[listed[t] as int].optional
        &&& answers[listed[t] as int] is Absent
    } by {
        assert(wants_value(fields, held, listed[t]));
        assert(is_check_answer(answers[listed[t] as int]));
    }
    assert forall|i: int| 0 <= i < fields.len() && !fields[i].optional && #[trigger] answers[i] is Absent
        implies listed.contains(i as nat) by {
        assert(wants_value(fields, held, i as nat));
    }
}

/// `to_produce` lists, in increasing order, exactly the fields below `upto`
/// that want a value.
proof fn lemma_listing(fields: Seq<FieldView>, held: Seq<bool>, upto: nat)
    ensures
        ({
            let listed = to_produce(fields, held, upto);
            &&& forall|t: int|
                0 <= t < listed.len() ==> #[trigger] listed[t] < upto && wants_value(
                    fields,
                    held,
                    listed[t],
                )
            &&& forall|i: nat| i < upto && #[trigger] wants_value(fields, held, i) ==> listed.contains(i)
            &&& forall|s: int, t: int| 0 <= s < t < listed.len() ==> listed[s] < listed[t]
        }),
    decreases upto,
{
    if upto > 0 {
        let w = (upto - 1) as nat;
        lemma_listing(fields, held, w);
        let prev = to_produce(fields, held, w);
        let listed = to_produce(fields, held, upto);
        if wants_value(fields, held, w) {
            assert(listed[prev.len() as int] == w);
        }
        assert forall|i: nat| i < upto && #[trigger] wants_value(fields, held, i) implies listed.contains(i) by {
            if i < w {
                let k = choose|k: int| 0 <= k < prev.len() && prev[k] == i;
                assert(listed[k] == i);
            } else {
                assert(listed[prev.len() as int] == i);
            }
        }
    }
}

} // verus!
