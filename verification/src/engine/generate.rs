//! Populating an identity volume with the fields a schema declares.

use vstd::prelude::*;
use vstd::string::StringExecFns;

use crate::engine::field_type::{EntropyBuild, Invalid, Recipe};
use crate::engine::schema::{Field, FieldPath, FieldView, Schema};

pub mod runs;

verus! {

broadcast use vstd::string::group_string_axioms;

/// What generate does about the values a volume already holds.
#[derive(Debug, Clone, Copy, PartialEq, Eq)]
pub enum Mode {
    /// Populate a volume that holds nothing.
    Populate,
    /// Only populate missing fields.
    Upgrade,
}

/// Where a run of generate stands, as plain values.
pub enum Phase {
    /// Asking what the volume holds for the field at this position.
    CheckField(nat),
    /// Producing a value for the field at this position.
    MakeField(nat),
    /// Writing the value produced for the field at this position.
    WriteField(nat),
    /// Finished.
    Done,
}

/// A value the volume was found holding, as plain values.
pub struct HeldView {
    pub path: Seq<char>,
    pub invalid: Option<Invalid>,
}

/// Why a run of generate stopped, as plain values.
pub enum Fault {
    AlreadyHeld(Seq<HeldView>),
    InvalidValues(Seq<HeldView>),
    Failed { path: Seq<char>, why: Seq<char> },
    Unusable { path: Seq<char>, reason: Invalid },
    Unable { path: Seq<char>, kind_name: Seq<char> },
}

/// The state of a run of generate, as plain values.
#[verifier::ext_equal]
pub struct GenerateState {
    pub mode: Mode,
    pub phase: Phase,
    /// The values found in the volume, not yet surveyed.
    pub present: Seq<HeldView>,
    /// Which fields the volume was found holding, by declaration order.
    pub held: Seq<bool>,
    /// The value produced for each field so far, if one was.
    pub values: Seq<Option<Seq<u8>>>,
    pub failure: Option<Fault>,
}

/// What a step of generate asks of the world.
pub enum Request {
    /// Report what the volume holds for the field at this position.
    Check(nat),
    /// Draw `bytes` bytes of randomness for the field at `at`.
    Draw { at: nat, bytes: usize, build: EntropyBuild },
    /// Ask for a passphrase for the field at this position, and hash it.
    Hash(nat),
    /// Write the value produced for the field at this position.
    Write(nat),
    /// The run is over, with this outcome.
    Done(Result<(), Fault>),
}

/// Whether the field at `at` was found held.
pub open spec fn held_at(held: Seq<bool>, at: nat) -> bool {
    at < held.len() && held[at as int]
}

/// The value produced for the field at `at`, if any.
pub open spec fn value_at(values: Seq<Option<Seq<u8>>>, at: nat) -> Option<Seq<u8>> {
    if at < values.len() {
        values[at as int]
    } else {
        None
    }
}

/// A held value its type refuses.
pub open spec fn is_invalid_held() -> spec_fn(HeldView) -> bool {
    |h: HeldView| h.invalid is Some
}

/// Orders phases so that every step that does not ask the world anything
/// moves a run closer to its end.
pub open spec fn phase_rank(phase: Phase) -> nat {
    match phase {
        Phase::CheckField(_) => 3,
        Phase::MakeField(_) => 2,
        Phase::WriteField(_) => 1,
        Phase::Done => 0,
    }
}

/// How many fields a phase has left to go through.
pub open spec fn phase_left(phase: Phase, n: nat) -> nat {
    match phase {
        Phase::MakeField(at) => if at < n {
            (n - at) as nat
        } else {
            0
        },
        Phase::WriteField(at) => if at < n {
            (n - at) as nat
        } else {
            0
        },
        _ => 0,
    }
}

/// The survey generate makes once every field has been checked: populating
/// refuses a volume that holds any declared value, upgrading refuses one that
/// holds a value its type refuses; otherwise production begins.
pub open spec fn survey(fields: Seq<FieldView>, s: GenerateState) -> (GenerateState, Request)
    decreases 2nat, fields.len() + 1,
{
    let present = s.present;
    let surveyed = GenerateState { present: Seq::empty(), ..s };
    let invalid = present.filter(is_invalid_held());
    if s.mode == Mode::Populate && present.len() > 0 {
        (
            GenerateState { phase: Phase::Done, ..surveyed },
            Request::Done(Err(Fault::AlreadyHeld(present))),
        )
    } else if s.mode == Mode::Upgrade && invalid.len() > 0 {
        (
            GenerateState { phase: Phase::Done, ..surveyed },
            Request::Done(Err(Fault::InvalidValues(invalid))),
        )
    } else {
        advance(fields, GenerateState { phase: Phase::MakeField(0), ..surveyed })
    }
}

/// The next request a run makes from state `s`, and the state it makes it in.
///
/// A stored failure ends the run. Fields are checked in declaration order;
/// once all are, the volume is surveyed. Then a value is produced, in order,
/// for every field that is neither optional nor held; then every produced
/// value is written, in order.
pub open spec fn advance(fields: Seq<FieldView>, s: GenerateState) -> (GenerateState, Request)
    decreases phase_rank(s.phase), phase_left(s.phase, fields.len()),
{
    match s.failure {
        Some(f) => (GenerateState { failure: None, ..s }, Request::Done(Err(f))),
        None => match s.phase {
            Phase::CheckField(at) => if at < fields.len() {
                (s, Request::Check(at))
            } else {
                survey(fields, s)
            },
            Phase::MakeField(at) => if at < fields.len() {
                let field = fields[at as int];
                if field.optional || held_at(s.held, at) {
                    advance(
                        fields,
                        GenerateState {
                            values: s.values.push(None),
                            phase: Phase::MakeField(at + 1),
                            ..s
                        },
                    )
                } else {
                    match field.kind.spec_recipe() {
                        Some(Recipe::FromEntropy { bytes, build }) => (
                            s,
                            Request::Draw { at, bytes, build },
                        ),
                        Some(Recipe::FromPassphrasePrompt) => (s, Request::Hash(at)),
                        None => (
                            GenerateState { phase: Phase::Done, ..s },
                            Request::Done(
                                Err(
                                    Fault::Unable {
                                        path: field.path,
                                        kind_name: field.kind.spec_name(),
                                    },
                                ),
                            ),
                        ),
                    }
                }
            } else {
                advance(fields, GenerateState { phase: Phase::WriteField(0), ..s })
            },
            Phase::WriteField(at) => if at < fields.len() {
                if value_at(s.values, at) is None {
                    advance(fields, GenerateState { phase: Phase::WriteField(at + 1), ..s })
                } else {
                    (s, Request::Write(at))
                }
            } else {
                (GenerateState { phase: Phase::Done, ..s }, Request::Done(Ok(())))
            },
            Phase::Done => (s, Request::Done(Ok(()))),
        },
    }
}

/// A run's state once the volume was found holding `value` for `field`, at `at`.
pub open spec fn after_present(s: GenerateState, at: nat, field: FieldView, value: Seq<u8>) -> GenerateState {
    GenerateState {
        held: if at < s.held.len() {
            s.held.update(at as int, true)
        } else {
            s.held
        },
        present: s.present.push(
            HeldView {
                path: field.path,
                invalid: match field.kind.validity(value) {
                    Ok(()) => None,
                    Err(e) => Some(e),
                },
            },
        ),
        phase: Phase::CheckField(at + 1),
        ..s
    }
}

/// A run's state once the volume was found holding nothing for the field at
/// `at`.
pub open spec fn after_absent(s: GenerateState, at: nat) -> GenerateState {
    GenerateState { phase: Phase::CheckField(at + 1), ..s }
}

/// A run's state once the world failed a request about `field`.
pub open spec fn after_failed(s: GenerateState, field: FieldView, why: Seq<char>) -> GenerateState {
    GenerateState {
        failure: Some(Fault::Failed { path: field.path, why }),
        phase: Phase::Done,
        ..s
    }
}

/// A run's state once `value` was produced for `field`, at `at`: kept if the
/// field's type accepts it, else the run fails.
pub open spec fn after_produced(s: GenerateState, at: nat, field: FieldView, value: Seq<u8>) -> GenerateState {
    match field.kind.validity(value) {
        Ok(()) => GenerateState {
            values: s.values.push(Some(value)),
            phase: Phase::MakeField(at + 1),
            ..s
        },
        Err(reason) => GenerateState {
            failure: Some(Fault::Unusable { path: field.path, reason }),
            phase: Phase::Done,
            ..s
        },
    }
}

/// A run's state once the value for the field at `at` was written.
pub open spec fn after_written(s: GenerateState, at: nat) -> GenerateState {
    GenerateState { phase: Phase::WriteField(at + 1), ..s }
}

/// Each step carries a request to perform an action in the world.
/// Upon completing it, the driver should answer the request.
#[must_use]
pub enum Step<'r, 's> {
    CheckValue(CheckValue<'r, 's>),
    DrawEntropy(DrawEntropy<'r, 's>),
    HashPassphrase(GetHashedPassphrase<'r, 's>),
    WriteValue(WriteValue<'r, 's>),
    Done(Result<(), GenerateError>),
}

/// The outcome of a run, as plain values.
pub open spec fn outcome_view(outcome: Result<(), GenerateError>) -> Result<(), Fault> {
    match outcome {
        Ok(()) => Ok(()),
        Err(e) => Err(e@),
    }
}

impl<'r, 's> Step<'r, 's> {
    /// What this step asks of the world.
    pub open spec fn request(&self) -> Request {
        match self {
            Step::CheckValue(h) => Request::Check(h.index()),
            Step::DrawEntropy(h) => Request::Draw {
                at: h.index(),
                bytes: h.spec_wanted(),
                build: h.spec_build(),
            },
            Step::HashPassphrase(h) => Request::Hash(h.index()),
            Step::WriteValue(h) => Request::Write(h.index()),
            Step::Done(outcome) => Request::Done(outcome_view(*outcome)),
        }
    }
}

/// Report what the volume already holds for this field, if anything.
#[must_use]
pub struct CheckValue<'r, 's> {
    generate: &'r mut Generate<'s>,
    field: &'s Field,
    current_field_idx: usize,
}

impl<'r, 's> CheckValue<'r, 's> {
    /// The run this request belongs to.
    pub closed spec fn target(self) -> &'r mut Generate<'s> {
        self.generate
    }

    /// The position of the field asked about.
    pub closed spec fn index(self) -> nat {
        self.current_field_idx as nat
    }

    /// The field asked about.
    pub closed spec fn field_view(self) -> FieldView {
        self.field@
    }

    /// The request is about a field of the run's schema.
    pub closed spec fn placed(self) -> bool {
        self.current_field_idx < self.generate.spec_fields().len() <= usize::MAX
    }

    /// Where inside the volume the value would be stored.
    pub fn path(&self) -> (path: &'s FieldPath)
        ensures
            path@ == self.field_view().path,
    {
        self.field.path()
    }

    /// A value is already stored there.
    pub fn present(self, value: &[u8])
        requires
            self.placed(),
        ensures
            final(self.target())@ == after_present(
                old(self.target())@,
                self.index(),
                self.field_view(),
                value@,
            ),
            final(self.target()).spec_fields() == old(self.target()).spec_fields(),
    {
        let ghost before = self.generate@;
        let at = self.current_field_idx;
        if at < self.generate.held.len() {
            self.generate.held.set(at, true);
        }
        let invalid = match self.field.kind().validate(value) {
            Ok(()) => None,
            Err(e) => Some(e),
        };
        let held = Held { path: self.field.path().clone(), invalid };
        let ghost held_view = held@;
        self.generate.present.push(held);
        self.generate.phase = GeneratePhase::CheckField(at + 1);
        assert(self.generate@.present =~= before.present.push(held_view));
    }

    /// Nothing is stored there.
    pub fn absent(self)
        requires
            self.placed(),
        ensures
            final(self.target())@ == after_absent(old(self.target())@, self.index()),
            final(self.target()).spec_fields() == old(self.target()).spec_fields(),
    {
        self.generate.phase = GeneratePhase::CheckField(self.current_field_idx + 1);
    }

    /// The volume could not be consulted.
    pub fn failed(self, why: String)
        ensures
            final(self.target())@ == after_failed(old(self.target())@, self.field_view(), why@),
            final(self.target()).spec_fields() == old(self.target()).spec_fields(),
    {
        self.generate.fail(self.field, why);
    }
}

/// Draw randomness from the kernel for a field that requires it.
#[must_use]
pub struct DrawEntropy<'r, 's> {
    generate: &'r mut Generate<'s>,
    field: &'s Field,
    current_field_idx: usize,
    bytes: usize,
    build: EntropyBuild,
}

impl<'r, 's> DrawEntropy<'r, 's> {
    /// The run this request belongs to.
    pub closed spec fn target(self) -> &'r mut Generate<'s> {
        self.generate
    }

    /// The position of the field asked about.
    pub closed spec fn index(self) -> nat {
        self.current_field_idx as nat
    }

    /// The field asked about.
    pub closed spec fn field_view(self) -> FieldView {
        self.field@
    }

    /// How many bytes are asked for.
    pub closed spec fn spec_wanted(self) -> usize {
        self.bytes
    }

    /// How the value is built out of the bytes drawn.
    pub closed spec fn spec_build(self) -> EntropyBuild {
        self.build
    }

    /// The request is about a field of the run's schema.
    pub closed spec fn placed(self) -> bool {
        self.current_field_idx < self.generate.spec_fields().len() <= usize::MAX
    }

    /// How many bytes the field's type asks for.
    pub fn wanted(&self) -> (bytes: usize)
        ensures
            bytes == self.spec_wanted(),
    {
        self.bytes
    }

    /// Submit the drawn randomness.
    pub fn filled(self, entropy: &[u8])
        requires
            self.placed(),
        ensures
            final(self.target())@ == after_produced(
                old(self.target())@,
                self.index(),
                self.field_view(),
                self.spec_build().spec_apply(entropy@),
            ),
            final(self.target()).spec_fields() == old(self.target()).spec_fields(),
    {
        let value = self.build.apply(entropy);
        self.generate.accept(self.field, self.current_field_idx, value);
    }

    /// No randomness could be drawn.
    pub fn failed(self, why: String)
        ensures
            final(self.target())@ == after_failed(old(self.target())@, self.field_view(), why@),
            final(self.target()).spec_fields() == old(self.target()).spec_fields(),
    {
        self.generate.fail(self.field, why);
    }
}

/// Request a passphrase from the operator and hash it.
/// Both steps are performed by the driver, so we never have the raw passphrase.
#[must_use]
pub struct GetHashedPassphrase<'r, 's> {
    generate: &'r mut Generate<'s>,
    field: &'s Field,
    current_field_idx: usize,
}

impl<'r, 's> GetHashedPassphrase<'r, 's> {
    /// The run this request belongs to.
    pub closed spec fn target(self) -> &'r mut Generate<'s> {
        self.generate
    }

    /// The position of the field asked about.
    pub closed spec fn index(self) -> nat {
        self.current_field_idx as nat
    }

    /// The field asked about.
    pub closed spec fn field_view(self) -> FieldView {
        self.field@
    }

    /// The request is about a field of the run's schema.
    pub closed spec fn placed(self) -> bool {
        self.current_field_idx < self.generate.spec_fields().len() <= usize::MAX
    }

    /// Which field the operator is being asked about.
    pub fn path(&self) -> (path: &'s FieldPath)
        ensures
            path@ == self.field_view().path,
    {
        self.field.path()
    }

    /// What the field is for, if the schema says.
    pub fn description(&self) -> (description: Option<&'s str>)
        ensures
            match description {
                Some(d) => self.field_view().description == Some(d@),
                None => self.field_view().description is None,
            },
    {
        self.field.description()
    }

    /// Record the hashed passphrase.
    pub fn hashed(self, record: &[u8])
        requires
            self.placed(),
        ensures
            final(self.target())@ == after_produced(
                old(self.target())@,
                self.index(),
                self.field_view(),
                record@,
            ),
            final(self.target()).spec_fields() == old(self.target()).spec_fields(),
    {
        let value = vstd::slice::slice_to_vec(record);
        self.generate.accept(self.field, self.current_field_idx, value);
    }

    /// No passphrase could be had or hashed.
    pub fn failed(self, why: String)
        ensures
            final(self.target())@ == after_failed(old(self.target())@, self.field_view(), why@),
            final(self.target()).spec_fields() == old(self.target()).spec_fields(),
    {
        self.generate.fail(self.field, why);
    }
}

/// Write a produced value into the volume.
#[must_use]
pub struct WriteValue<'r, 's> {
    generate: &'r mut Generate<'s>,
    field: &'s Field,
    current_field_idx: usize,
}

impl<'r, 's> WriteValue<'r, 's> {
    /// The run this request belongs to.
    pub closed spec fn target(self) -> &'r mut Generate<'s> {
        self.generate
    }

    /// The position of the field asked about.
    pub closed spec fn index(self) -> nat {
        self.current_field_idx as nat
    }

    /// The field asked about.
    pub closed spec fn field_view(self) -> FieldView {
        self.field@
    }

    /// The request is about a field of the run's schema.
    pub closed spec fn placed(self) -> bool {
        self.current_field_idx < self.generate.spec_fields().len() <= usize::MAX
    }

    /// Where inside the volume the value belongs.
    pub fn path(&self) -> (path: &'s FieldPath)
        ensures
            path@ == self.field_view().path,
    {
        self.field.path()
    }

    /// The mode the value is to be stored under.
    pub fn permissions(&self) -> (mode: u32)
        ensures
            mode == self.field_view().kind.spec_permissions(),
    {
        self.field.kind().permissions()
    }

    /// The value to write.
    pub fn value(&self) -> (value: &[u8])
        ensures
            value@ == match value_at(self.target()@.values, self.index()) {
                Some(v) => v,
                None => Seq::<u8>::empty(),
            },
    {
        let at = self.current_field_idx;
        if at < self.generate.values.len() {
            match &self.generate.values[at] {
                Some(v) => v.as_slice(),
                None => &[],
            }
        } else {
            &[]
        }
    }

    /// The value was written.
    pub fn written(self)
        requires
            self.placed(),
        ensures
            final(self.target())@ == after_written(old(self.target())@, self.index()),
            final(self.target()).spec_fields() == old(self.target()).spec_fields(),
    {
        self.generate.phase = GeneratePhase::WriteField(self.current_field_idx + 1);
    }

    /// The value could not be written.
    pub fn failed(self, why: String)
        ensures
            final(self.target())@ == after_failed(old(self.target())@, self.field_view(), why@),
            final(self.target()).spec_fields() == old(self.target()).spec_fields(),
    {
        self.generate.fail(self.field, why);
    }
}

/// Why a run of generate stopped.
#[derive(Debug)]
pub enum GenerateError {
    AlreadyHeld(Vec<Held>),
    InvalidValues(Vec<Held>),
    Failed { path: FieldPath, why: String },
    Unusable { path: FieldPath, reason: Invalid },
    Unable { path: FieldPath, kind_name: &'static str },
}

impl View for GenerateError {
    type V = Fault;

    open spec fn view(&self) -> Fault {
        match self {
            GenerateError::AlreadyHeld(held) => Fault::AlreadyHeld(
                held@.map_values(|h: Held| h@),
            ),
            GenerateError::InvalidValues(held) => Fault::InvalidValues(
                held@.map_values(|h: Held| h@),
            ),
            GenerateError::Failed { path, why } => Fault::Failed { path: path@, why: why@ },
            GenerateError::Unusable { path, reason } => Fault::Unusable {
                path: path@,
                reason: *reason,
            },
            GenerateError::Unable { path, kind_name } => Fault::Unable {
                path: path@,
                kind_name: kind_name@,
            },
        }
    }
}

/// A held value, as a line naming it and, if its type refuses it, why.
pub open spec fn held_line(held: HeldView) -> Seq<char> {
    match held.invalid {
        Some(invalid) => held.path + ": "@ + invalid.spec_message(),
        None => held.path,
    }
}

/// Held values, one line each.
pub open spec fn held_lines(held: Seq<HeldView>) -> Seq<char>
    decreases held.len(),
{
    if held.len() == 0 {
        Seq::empty()
    } else if held.len() == 1 {
        held_line(held[0])
    } else {
        held_lines(held.drop_last()) + "\n"@ + held_line(held.last())
    }
}

impl Fault {
    /// How the failure reads to the operator.
    pub open spec fn spec_message(self) -> Seq<char> {
        match self {
            Fault::AlreadyHeld(held) => "the volume already holds:\n"@ + held_lines(held),
            Fault::InvalidValues(held) => "the volume holds invalid values:\n"@ + held_lines(held),
            Fault::Failed { path, why } => path + ": "@ + why,
            Fault::Unusable { path, reason } => path + ": produced a value its own type refuses: "@
                + reason.spec_message(),
            Fault::Unable { path, kind_name } => path + ": producing a '"@ + kind_name
                + "' is not implemented"@,
        }
    }
}

/// Appends the lines naming `held` to `out`.
fn push_held_lines(out: &mut String, held: &Vec<Held>)
    ensures
        final(out)@ == old(out)@ + held_lines(held@.map_values(|h: Held| h@)),
{
    let ghost views = held@.map_values(|h: Held| h@);
    let mut i: usize = 0;
    assert(views.take(0) =~= Seq::<HeldView>::empty());
    while i < held.len()
        invariant
            views == held@.map_values(|h: Held| h@),
            i <= held@.len(),
            out@ == old(out)@ + held_lines(views.take(i as int)),
        decreases held@.len() - i,
    {
        if i > 0 {
            out.append("\n");
        }
        held[i].push_line(out);
        proof {
            assert(views.take(i + 1).drop_last() =~= views.take(i as int));
            assert(views.take(i + 1).last() == views[i as int]);
            if i == 0 {
                assert(views.take(1)[0] == views[0]);
            }
        }
        i = i + 1;
    }
    assert(views.take(i as int) =~= views);
}

impl GenerateError {
    /// How the failure reads to the operator.
    pub fn message(&self) -> (text: String)
        ensures
            text@ == self@.spec_message(),
    {
        match self {
            GenerateError::AlreadyHeld(held) => {
                let mut text = String::from_str("the volume already holds:\n");
                push_held_lines(&mut text, held);
                text
            },
            GenerateError::InvalidValues(held) => {
                let mut text = String::from_str("the volume holds invalid values:\n");
                push_held_lines(&mut text, held);
                text
            },
            GenerateError::Failed { path, why } => {
                let mut text = String::from_str(path.as_str());
                text.append(": ");
                text.append(why.as_str());
                text
            },
            GenerateError::Unusable { path, reason } => {
                let mut text = String::from_str(path.as_str());
                text.append(": produced a value its own type refuses: ");
                text.append(reason.message().as_str());
                text
            },
            GenerateError::Unable { path, kind_name } => {
                let mut text = String::from_str(path.as_str());
                text.append(": producing a '");
                text.append(kind_name);
                text.append("' is not implemented");
                text
            },
        }
    }
}

/// A value the volume was already holding, and what its field type made of it.
#[derive(Debug)]
pub struct Held {
    pub path: FieldPath,
    pub invalid: Option<Invalid>,
}

impl View for Held {
    type V = HeldView;

    open spec fn view(&self) -> HeldView {
        HeldView { path: self.path@, invalid: self.invalid }
    }
}

impl Held {
    /// Appends the line naming this value to `out`.
    fn push_line(&self, out: &mut String)
        ensures
            final(out)@ == old(out)@ + held_line(self@),
    {
        out.append(self.path.as_str());
        match &self.invalid {
            Some(invalid) => {
                out.append(": ");
                out.append(invalid.message().as_str());
            },
            None => {},
        }
    }

    /// The line naming this value and, if its type refuses it, why.
    pub fn line(&self) -> (line: String)
        ensures
            line@ == held_line(self@),
    {
        let mut line = String::new();
        self.push_line(&mut line);
        line
    }
}

#[derive(Debug)]
enum GeneratePhase {
    CheckField(usize),
    MakeField(usize),
    WriteField(usize),
    Done,
}

impl View for GeneratePhase {
    type V = Phase;

    closed spec fn view(&self) -> Phase {
        match self {
            GeneratePhase::CheckField(at) => Phase::CheckField(*at as nat),
            GeneratePhase::MakeField(at) => Phase::MakeField(*at as nat),
            GeneratePhase::WriteField(at) => Phase::WriteField(*at as nat),
            GeneratePhase::Done => Phase::Done,
        }
    }
}

/// The values produced so far, as plain values.
pub open spec fn values_view(values: Seq<Option<Vec<u8>>>) -> Seq<Option<Seq<u8>>> {
    values.map_values(
        |v: Option<Vec<u8>>|
            match v {
                Some(bytes) => Some(bytes@),
                None => None,
            },
    )
}

/// The failure stored for the next step, as plain values.
pub open spec fn failure_view(failure: Option<GenerateError>) -> Option<Fault> {
    match failure {
        Some(e) => Some(e@),
        None => None,
    }
}

/// The generate operation.
///
/// Produces a value for every field the schema declares and stores it in the
/// identity volume. The volume is surveyed in full before any change is made.
#[derive(Debug)]
pub struct Generate<'s> {
    schema: &'s Schema,
    mode: Mode,
    phase: GeneratePhase,
    present: Vec<Held>,
    /// Which fields the volume was already holding, by declaration order.
    held: Vec<bool>,
    values: Vec<Option<Vec<u8>>>,
    failure: Option<GenerateError>,
}

impl<'s> View for Generate<'s> {
    type V = GenerateState;

    closed spec fn view(&self) -> GenerateState {
        GenerateState {
            mode: self.mode,
            phase: self.phase@,
            present: self.present@.map_values(|h: Held| h@),
            held: self.held@,
            values: values_view(self.values@),
            failure: failure_view(self.failure),
        }
    }
}

/// The state a run starts in, for a schema of `n` fields.
pub open spec fn initial_state(mode: Mode, n: nat) -> GenerateState {
    GenerateState {
        mode,
        phase: Phase::CheckField(0),
        present: Seq::empty(),
        held: Seq::new(n, |i: int| false),
        values: Seq::empty(),
        failure: None,
    }
}

impl<'s> Generate<'s> {
    /// The fields of the schema the run populates the volume for.
    pub closed spec fn spec_fields(&self) -> Seq<FieldView> {
        self.schema@
    }

    pub fn new(schema: &'s Schema, mode: Mode) -> (generate: Generate<'s>)
        ensures
            generate@ == initial_state(mode, schema@.len()),
            generate.spec_fields() == schema@,
    {
        let n = schema.fields().len();
        let generate = Generate {
            schema,
            mode,
            phase: GeneratePhase::CheckField(0),
            present: Vec::new(),
            held: vec![false; n],
            values: Vec::new(),
            failure: None,
        };
        proof {
            assert(generate@.held =~= Seq::new(n as nat, |i: int| false));
            assert(generate@.present =~= Seq::<HeldView>::empty());
            assert(generate@.values =~= Seq::<Option<Seq<u8>>>::empty());
        }
        generate
    }

    /// Takes the next step of the run.
    pub fn step(&mut self) -> (step: Step<'_, 's>)
        ensures
            ({
                let (next, request) = advance(old(self).spec_fields(), old(self)@);
                &&& step.request() == request
                &&& match step {
                    Step::CheckValue(h) => {
                        &&& h.target()@ == next
                        &&& h.target().spec_fields() == old(self).spec_fields()
                        &&& h.field_view() == old(self).spec_fields()[h.index() as int]
                        &&& h.placed()
                        &&& *final(self) == *final(h.target())
                    },
                    Step::DrawEntropy(h) => {
                        &&& h.target()@ == next
                        &&& h.target().spec_fields() == old(self).spec_fields()
                        &&& h.field_view() == old(self).spec_fields()[h.index() as int]
                        &&& h.placed()
                        &&& *final(self) == *final(h.target())
                    },
                    Step::HashPassphrase(h) => {
                        &&& h.target()@ == next
                        &&& h.target().spec_fields() == old(self).spec_fields()
                        &&& h.field_view() == old(self).spec_fields()[h.index() as int]
                        &&& h.placed()
                        &&& *final(self) == *final(h.target())
                    },
                    Step::WriteValue(h) => {
                        &&& h.target()@ == next
                        &&& h.target().spec_fields() == old(self).spec_fields()
                        &&& h.field_view() == old(self).spec_fields()[h.index() as int]
                        &&& h.placed()
                        &&& *final(self) == *final(h.target())
                    },
                    Step::Done(_) => {
                        &&& final(self)@ == next
                        &&& final(self).spec_fields() == old(self).spec_fields()
                    },
                }
            }),
        decreases phase_rank(old(self)@.phase), phase_left(
            old(self)@.phase,
            old(self).spec_fields().len(),
        ),
    {
        if let Some(failure) = self.failure.take() {
            return Step::Done(Err(failure));
        }
        let schema: &'s Schema = self.schema;
        let fields: &'s [Field] = schema.fields();
        let n = fields.len();
        let ghost s0 = self@;
        assert(s0 == old(self)@);
        match self.phase {
            GeneratePhase::CheckField(at) => {
                if at < n {
                    let field: &'s Field = &fields[at];
                    Step::CheckValue(CheckValue { generate: self, field, current_field_idx: at })
                } else {
                    self.survey()
                }
            },
            GeneratePhase::MakeField(at) => {
                if at < n {
                    let field: &'s Field = &fields[at];
                    // Don't generate existing or optional values
                    if field.is_optional() || (at < self.held.len() && self.held[at]) {
                        self.values.push(None);
                        self.phase = GeneratePhase::MakeField(at + 1);
                        assert(self@ =~= GenerateState {
                            values: s0.values.push(None),
                            phase: Phase::MakeField((at + 1) as nat),
                            ..s0
                        });
                        self.step()
                    } else {
                        match field.kind().recipe() {
                            Some(Recipe::FromEntropy { bytes, build }) => Step::DrawEntropy(
                                DrawEntropy {
                                    generate: self,
                                    field,
                                    current_field_idx: at,
                                    bytes,
                                    build,
                                },
                            ),
                            Some(Recipe::FromPassphrasePrompt) => Step::HashPassphrase(
                                GetHashedPassphrase {
                                    generate: self,
                                    field,
                                    current_field_idx: at,
                                },
                            ),
                            None => {
                                self.failure = Some(
                                    GenerateError::Unable {
                                        path: field.path().clone(),
                                        kind_name: field.kind().name(),
                                    },
                                );
                                self.phase = GeneratePhase::Done;
                                assert(self@ =~= GenerateState {
                                    failure: Some(
                                        Fault::Unable {
                                            path: field@.path,
                                            kind_name: field@.kind.spec_name(),
                                        },
                                    ),
                                    phase: Phase::Done,
                                    ..s0
                                });
                                self.step()
                            },
                        }
                    }
                } else {
                    self.phase = GeneratePhase::WriteField(0);
                    assert(self@ =~= GenerateState { phase: Phase::WriteField(0), ..s0 });
                    self.step()
                }
            },
            GeneratePhase::WriteField(at) => {
                if at < n {
                    let field: &'s Field = &fields[at];
                    // An optional field is not generated.
                    if at >= self.values.len() || self.values[at].is_none() {
                        self.phase = GeneratePhase::WriteField(at + 1);
                        assert(self@ =~= GenerateState {
                            phase: Phase::WriteField((at + 1) as nat),
                            ..s0
                        });
                        self.step()
                    } else {
                        Step::WriteValue(WriteValue { generate: self, field, current_field_idx: at })
                    }
                } else {
                    self.phase = GeneratePhase::Done;
                    assert(self@ =~= GenerateState { phase: Phase::Done, ..s0 });
                    Step::Done(Ok(()))
                }
            },
            GeneratePhase::Done => Step::Done(Ok(())),
        }
    }

    /// Survey the existing fields in the volume.
    fn survey(&mut self) -> (step: Step<'_, 's>)
        requires
            old(self)@.failure is None,
            old(self)@.phase matches Phase::CheckField(at) && at >= old(self).spec_fields().len(),
        ensures
            ({
                let (next, request) = survey(old(self).spec_fields(), old(self)@);
                &&& step.request() == request
                &&& match step {
                    Step::CheckValue(h) => {
                        &&& h.target()@ == next
                        &&& h.target().spec_fields() == old(self).spec_fields()
                        &&& h.field_view() == old(self).spec_fields()[h.index() as int]
                        &&& h.placed()
                        &&& *final(self) == *final(h.target())
                    },
                    Step::DrawEntropy(h) => {
                        &&& h.target()@ == next
                        &&& h.target().spec_fields() == old(self).spec_fields()
                        &&& h.field_view() == old(self).spec_fields()[h.index() as int]
                        &&& h.placed()
                        &&& *final(self) == *final(h.target())
                    },
                    Step::HashPassphrase(h) => {
                        &&& h.target()@ == next
                        &&& h.target().spec_fields() == old(self).spec_fields()
                        &&& h.field_view() == old(self).spec_fields()[h.index() as int]
                        &&& h.placed()
                        &&& *final(self) == *final(h.target())
                    },
                    Step::WriteValue(h) => {
                        &&& h.target()@ == next
                        &&& h.target().spec_fields() == old(self).spec_fields()
                        &&& h.field_view() == old(self).spec_fields()[h.index() as int]
                        &&& h.placed()
                        &&& *final(self) == *final(h.target())
                    },
                    Step::Done(_) => {
                        &&& final(self)@ == next
                        &&& final(self).spec_fields() == old(self).spec_fields()
                    },
                }
            }),
        decreases 2nat, old(self).spec_fields().len() + 1,
    {
        let ghost s0 = self@;
        let mut present: Vec<Held> = Vec::new();
        std::mem::swap(&mut present, &mut self.present);
        let ghost surveyed = GenerateState { present: Seq::empty(), ..s0 };
        assert(self@ =~= surveyed);
        match self.mode {
            Mode::Populate => {
                if present.len() > 0 {
                    self.phase = GeneratePhase::Done;
                    assert(self@ =~= GenerateState { phase: Phase::Done, ..surveyed });
                    return Step::Done(Err(GenerateError::AlreadyHeld(present)));
                }
            },
            Mode::Upgrade => {
                let invalid = keep_invalid(present);
                if invalid.len() > 0 {
                    self.phase = GeneratePhase::Done;
                    assert(self@ =~= GenerateState { phase: Phase::Done, ..surveyed });
                    return Step::Done(Err(GenerateError::InvalidValues(invalid)));
                }
            },
        }
        self.phase = GeneratePhase::MakeField(0);
        assert(self@ =~= GenerateState { phase: Phase::MakeField(0), ..surveyed });
        self.step()
    }

    /// Check a produced value using the field validator and accept it.
    fn accept(&mut self, field: &Field, field_idx: usize, value: Vec<u8>)
        requires
            field_idx < usize::MAX,
        ensures
            final(self)@ == after_produced(old(self)@, field_idx as nat, field@, value@),
            final(self).spec_fields() == old(self).spec_fields(),
    {
        let ghost before = self@;
        let ghost produced = value@;
        match field.kind().validate(value.as_slice()) {
            Ok(()) => {
                self.values.push(Some(value));
                self.phase = GeneratePhase::MakeField(field_idx + 1);
                assert(self@.values =~= before.values.push(Some(produced)));
            },
            Err(reason) => {
                self.failure = Some(GenerateError::Unusable { path: field.path().clone(), reason });
                self.phase = GeneratePhase::Done;
            },
        }
    }

    fn fail(&mut self, field: &Field, why: String)
        ensures
            final(self)@ == after_failed(old(self)@, field@, why@),
            final(self).spec_fields() == old(self).spec_fields(),
    {
        self.failure = Some(GenerateError::Failed { path: field.path().clone(), why });
        self.phase = GeneratePhase::Done;
    }
}

/// The held values whose type refuses them, in order.
fn keep_invalid(present: Vec<Held>) -> (invalid: Vec<Held>)
    ensures
        invalid@.map_values(|h: Held| h@) == present@.map_values(|h: Held| h@).filter(
            is_invalid_held(),
        ),
{
    let ghost views = present@.map_values(|h: Held| h@);
    let mut invalid: Vec<Held> = Vec::new();
    let total = present.len();
    let mut rest = present;
    let mut taken: usize = 0;
    assert(views.take(0) =~= Seq::<HeldView>::empty());
    assert(invalid@.map_values(|h: Held| h@) =~= Seq::<HeldView>::empty());
    while rest.len() > 0
        invariant
            views.len() == total,
            taken + rest@.len() == views.len(),
            rest@.map_values(|h: Held| h@) == views.skip(taken as int),
            invalid@.map_values(|h: Held| h@) == views.take(taken as int).filter(is_invalid_held()),
        decreases rest@.len(),
    {
        let ghost before = rest@;
        let held = rest.remove(0);
        proof {
            assert(views[taken as int] == held@) by {
                assert(views.skip(taken as int)[0] == views[taken as int]);
                assert(before[0] == held);
            }
            assert(rest@.map_values(|h: Held| h@) =~= views.skip(taken + 1)) by {
                assert(rest@ =~= before.subrange(1, before.len() as int));
                assert(before.map_values(|h: Held| h@) == views.skip(taken as int));
                assert(rest@.map_values(|h: Held| h@) =~= before.map_values(|h: Held| h@).subrange(
                    1,
                    before.len() as int,
                ));
                assert(views.skip(taken as int).subrange(1, before.len() as int) =~= views.skip(
                    taken + 1,
                ));
            }
            reveal_with_fuel(Seq::filter, 1);
            assert(views.take(taken + 1).drop_last() =~= views.take(taken as int));
        }
        let keep = held.invalid.is_some();
        if keep {
            invalid.push(held);
        }
        taken = taken + 1;
        proof {
            assert(invalid@.map_values(|h: Held| h@) =~= views.take(taken as int).filter(
                is_invalid_held(),
            ));
        }
    }
    assert(views.take(taken as int) =~= views);
    invalid
}

/// The paths of the fields among the first `upto` that were found held, in
/// declaration order.
pub open spec fn held_paths(fields: Seq<FieldView>, held: Seq<bool>, upto: nat) -> Seq<Seq<char>>
    decreases upto,
{
    if upto == 0 {
        Seq::empty()
    } else {
        let prev = held_paths(fields, held, (upto - 1) as nat);
        if held_at(held, (upto - 1) as nat) {
            prev.push(fields[upto - 1].path)
        } else {
            prev
        }
    }
}

/// Among the first `upto` fields, a value was produced exactly for those that
/// are neither optional nor held, and every value produced is one its
/// field's type accepts.
pub open spec fn produced_well(fields: Seq<FieldView>, s: GenerateState, upto: nat) -> bool {
    forall|i: int|
        0 <= i < upto ==> {
            &&& (#[trigger] value_at(s.values, i as nat) is Some <==> (!fields[i].optional
                && !held_at(s.held, i as nat)))
            &&& (value_at(s.values, i as nat) matches Some(v) ==> fields[i].kind.validity(v)
                is Ok)
        }
}

/// No declared field was found held.
pub open spec fn none_held(held: Seq<bool>) -> bool {
    forall|i: int| 0 <= i < held.len() ==> !#[trigger] held[i]
}

/// The invariant of a run of generate over `fields`: what every reachable
/// state satisfies.
pub open spec fn run_well_formed(fields: Seq<FieldView>, s: GenerateState) -> bool {
    let n = fields.len();
    &&& s.held.len() == n
    &&& (s.failure is Some ==> s.phase == Phase::Done)
    &&& match s.phase {
        Phase::CheckField(at) => {
            &&& at <= n
            &&& s.values.len() == 0
            &&& (forall|i: int| at <= i < n ==> !#[trigger] s.held[i])
            &&& s.present.map_values(|h: HeldView| h.path) == held_paths(fields, s.held, at)
        },
        Phase::MakeField(at) => {
            &&& at <= n
            &&& s.values.len() == at
            &&& s.present.len() == 0
            &&& produced_well(fields, s, at)
            &&& (s.mode == Mode::Populate ==> none_held(s.held))
        },
        Phase::WriteField(at) => {
            &&& at <= n
            &&& s.values.len() == n
            &&& s.present.len() == 0
            &&& produced_well(fields, s, n)
            &&& (s.mode == Mode::Populate ==> none_held(s.held))
        },
        Phase::Done => true,
    }
}

/// `held_paths` looks at no more of `held` than its first `upto` entries.
proof fn lemma_held_paths_prefix(fields: Seq<FieldView>, h1: Seq<bool>, h2: Seq<bool>, upto: nat)
    requires
        forall|i: nat| i < upto ==> held_at(h1, i) == held_at(h2, i),
    ensures
        held_paths(fields, h1, upto) == held_paths(fields, h2, upto),
    decreases upto,
{
    if upto > 0 {
        lemma_held_paths_prefix(fields, h1, h2, (upto - 1) as nat);
        assert(held_at(h1, (upto - 1) as nat) == held_at(h2, (upto - 1) as nat));
    }
}

/// No path is listed exactly when no field among the first `upto` is held.
proof fn lemma_held_paths_empty(fields: Seq<FieldView>, held: Seq<bool>, upto: nat)
    ensures
        held_paths(fields, held, upto).len() == 0 <==> forall|i: nat|
            i < upto ==> !#[trigger] held_at(held, i),
    decreases upto,
{
    if upto > 0 {
        lemma_held_paths_empty(fields, held, (upto - 1) as nat);
        let prev = held_paths(fields, held, (upto - 1) as nat);
        if !held_at(held, (upto - 1) as nat) {
            assert forall|i: nat| i < upto && (forall|j: nat| j < (upto - 1) as nat ==> !#[trigger] held_at(held, j)) implies !#[trigger] held_at(held, i) by {
                if i < upto - 1 {
                    assert(!held_at(held, i));
                }
            }
        }
    }
}

/// A run starts well formed.
pub proof fn lemma_initial_well_formed(mode: Mode, fields: Seq<FieldView>)
    ensures
        run_well_formed(fields, initial_state(mode, fields.len())),
{
    let s = initial_state(mode, fields.len());
    assert(s.present.map_values(|h: HeldView| h.path) =~= held_paths(fields, s.held, 0));
}

/// What a step asks of the world, from any well-formed state, and the state
/// it leaves the run in, which is again well formed:
/// - while some field has not been checked, the next field in declaration
///   order is checked, and nothing else happens;
/// - randomness or a passphrase is asked for only for a field that is neither
///   optional nor held, once the survey has passed;
/// - a value is written only if it was produced for a field that is neither
///   optional nor held, its type accepts it, and, when populating, the volume
///   held no declared value at all;
/// - a run that ends leaves nothing to carry over.
pub proof fn lemma_step_request(fields: Seq<FieldView>, s: GenerateState)
    requires
        run_well_formed(fields, s),
    ensures
        ({
            let (next, request) = advance(fields, s);
            &&& run_well_formed(fields, next)
            &&& phase_rank(next.phase) <= phase_rank(s.phase)
            &&& match request {
                Request::Check(at) => {
                    &&& at < fields.len()
                    &&& s.failure is None
                    &&& s.phase == Phase::CheckField(at)
                    &&& next == s
                },
                Request::Draw { at, bytes, build } => {
                    &&& at < fields.len()
                    &&& next.failure is None
                    &&& next.phase == Phase::MakeField(at)
                    &&& !fields[at as int].optional
                    &&& !held_at(next.held, at)
                    &&& fields[at as int].kind.spec_recipe() == Some(
                        Recipe::FromEntropy { bytes, build },
                    )
                },
                Request::Hash(at) => {
                    &&& at < fields.len()
                    &&& next.failure is None
                    &&& next.phase == Phase::MakeField(at)
                    &&& !fields[at as int].optional
                    &&& !held_at(next.held, at)
                    &&& fields[at as int].kind.spec_recipe() == Some(Recipe::FromPassphrasePrompt)
                },
                Request::Write(at) => {
                    &&& at < fields.len()
                    &&& next.failure is None
                    &&& next.phase == Phase::WriteField(at)
                    &&& !fields[at as int].optional
                    &&& !held_at(next.held, at)
                    &&& value_at(next.values, at) matches Some(v)
                    &&& fields[at as int].kind.validity(v) is Ok
                    &&& (next.mode == Mode::Populate ==> none_held(next.held))
                },
                Request::Done(_) => {
                    &&& next.phase == Phase::Done
                    &&& next.failure is None
                },
            }
        }),
    decreases phase_rank(s.phase), phase_left(s.phase, fields.len()),
{
    let n = fields.len();
    match s.failure {
        Some(f) => {
            assert(advance(fields, s) == (
                GenerateState { failure: None, ..s },
                Request::Done(Err(f)),
            ));
        },
        None => match s.phase {
            Phase::CheckField(at) => {
                if at >= n {
                    lemma_survey_request(fields, s);
                }
            },
            Phase::MakeField(at) => {
                if at < n {
                    let field = fields[at as int];
                    if field.optional || held_at(s.held, at) {
                        let t = GenerateState {
                            values: s.values.push(None),
                            phase: Phase::MakeField(at + 1),
                            ..s
                        };
                        assert forall|i: int| 0 <= i < at + 1 implies {
                            &&& (#[trigger] value_at(t.values, i as nat) is Some <==> (
                            !fields[i].optional && !held_at(t.held, i as nat)))
                            &&& (value_at(t.values, i as nat) matches Some(v)
                                ==> fields[i].kind.validity(v) is Ok)
                        } by {
                            if i < at {
                                assert(value_at(t.values, i as nat) == value_at(s.values, i as nat));
                            }
                        }
                        lemma_step_request(fields, t);
                    }
                } else {
                    lemma_step_request(fields, GenerateState { phase: Phase::WriteField(0), ..s });
                }
            },
            Phase::WriteField(at) => {
                if at < n {
                    if value_at(s.values, at) is None {
                        lemma_step_request(
                            fields,
                            GenerateState { phase: Phase::WriteField(at + 1), ..s },
                        );
                    } else {
                        let i = at as int;
                        assert(value_at(s.values, i as nat) is Some);
                    }
                }
            },
            Phase::Done => {},
        },
    }
}

/// The survey refuses a volume exactly as the documentation says: when
/// populating, a volume holding any declared value is refused, and the
/// refusal names every held value in declaration order; when upgrading, a
/// volume holding values their type refuses is refused, and the refusal names
/// exactly those. Otherwise production begins, with nothing left to survey.
pub proof fn lemma_survey_refusals(fields: Seq<FieldView>, s: GenerateState)
    requires
        run_well_formed(fields, s),
        s.failure is None,
        s.phase == Phase::CheckField(fields.len()),
    ensures
        s.present.map_values(|h: HeldView| h.path) == held_paths(fields, s.held, fields.len()),
        s.mode == Mode::Populate && (exists|i: int| 0 <= i < fields.len() && #[trigger] s.held[i])
            ==> advance(fields, s) == (
            GenerateState { present: Seq::empty(), phase: Phase::Done, ..s },
            Request::Done(Err(Fault::AlreadyHeld(s.present))),
        ),
        s.mode == Mode::Upgrade && s.present.filter(is_invalid_held()).len() > 0 ==> advance(
            fields,
            s,
        ) == (
            GenerateState { present: Seq::empty(), phase: Phase::Done, ..s },
            Request::Done(Err(Fault::InvalidValues(s.present.filter(is_invalid_held())))),
        ),
        (s.mode == Mode::Populate && none_held(s.held)) || (s.mode == Mode::Upgrade
            && s.present.filter(is_invalid_held()).len() == 0) ==> advance(fields, s) == advance(
            fields,
            GenerateState { present: Seq::empty(), phase: Phase::MakeField(0), ..s },
        ),
{
    assert(advance(fields, s) == survey(fields, s));
    lemma_held_paths_empty(fields, s.held, fields.len());
    if s.mode == Mode::Populate {
        if exists|i: int| 0 <= i < fields.len() && #[trigger] s.held[i] {
            let i = choose|i: int| 0 <= i < fields.len() && #[trigger] s.held[i];
            assert(held_at(s.held, i as nat));
            assert(s.present.map_values(|h: HeldView| h.path).len() > 0);
        }
        if none_held(s.held) {
            assert forall|i: nat| i < fields.len() implies !#[trigger] held_at(s.held, i) by {
                assert(!s.held[i as int]);
            }
            assert(s.present.map_values(|h: HeldView| h.path).len() == 0);
        }
    }
}

/// The survey, from a well-formed state with every field checked, leaves the
/// run well formed.
proof fn lemma_survey_request(fields: Seq<FieldView>, s: GenerateState)
    requires
        run_well_formed(fields, s),
        s.failure is None,
        s.phase matches Phase::CheckField(at) && at >= fields.len(),
    ensures
        ({
            let (next, request) = survey(fields, s);
            &&& run_well_formed(fields, next)
            &&& phase_rank(next.phase) <= 2
            &&& match request {
                Request::Check(at) => false,
                Request::Draw { at, bytes, build } => {
                    &&& at < fields.len()
                    &&& next.failure is None
                    &&& next.phase == Phase::MakeField(at)
                    &&& !fields[at as int].optional
                    &&& !held_at(next.held, at)
                    &&& fields[at as int].kind.spec_recipe() == Some(
                        Recipe::FromEntropy { bytes, build },
                    )
                },
                Request::Hash(at) => {
                    &&& at < fields.len()
                    &&& next.failure is None
                    &&& next.phase == Phase::MakeField(at)
                    &&& !fields[at as int].optional
                    &&& !held_at(next.held, at)
                    &&& fields[at as int].kind.spec_recipe() == Some(Recipe::FromPassphrasePrompt)
                },
                Request::Write(at) => {
                    &&& at < fields.len()
                    &&& next.failure is None
                    &&& next.phase == Phase::WriteField(at)
                    &&& !fields[at as int].optional
                    &&& !held_at(next.held, at)
                    &&& value_at(next.values, at) matches Some(v)
                    &&& fields[at as int].kind.validity(v) is Ok
                    &&& (next.mode == Mode::Populate ==> none_held(next.held))
                },
                Request::Done(_) => {
                    &&& next.phase == Phase::Done
                    &&& next.failure is None
                },
            }
        }),
    decreases 2nat, fields.len() + 1,
{
    let present = s.present;
    let surveyed = GenerateState { present: Seq::empty(), ..s };
    let invalid = present.filter(is_invalid_held());
    if s.mode == Mode::Populate && present.len() > 0 {
    } else if s.mode == Mode::Upgrade && invalid.len() > 0 {
    } else {
        let t = GenerateState { phase: Phase::MakeField(0), ..surveyed };
        if s.mode == Mode::Populate {
            lemma_held_paths_empty(fields, s.held, fields.len());
            assert(present.map_values(|h: HeldView| h.path).len() == 0);
            assert forall|i: int| 0 <= i < s.held.len() implies !#[trigger] s.held[i] by {
                assert(!held_at(s.held, i as nat));
            }
        }
        lemma_step_request(fields, t);
    }
}

/// Every answer to a request leaves a well-formed run well formed: a check
/// answered by a value or by nothing, a value produced, a value written, or
/// any request failed.
pub proof fn lemma_answers_keep_run_well_formed(
    fields: Seq<FieldView>,
    s: GenerateState,
    request: Request,
    value: Seq<u8>,
    why: Seq<char>,
)
    requires
        run_well_formed(fields, s),
        s.failure is None,
        match request {
            Request::Check(at) => s.phase == Phase::CheckField(at) && at < fields.len(),
            Request::Draw { at, .. } => s.phase == Phase::MakeField(at) && at < fields.len()
                && !fields[at as int].optional && !held_at(s.held, at),
            Request::Hash(at) => s.phase == Phase::MakeField(at) && at < fields.len()
                && !fields[at as int].optional && !held_at(s.held, at),
            Request::Write(at) => s.phase == Phase::WriteField(at) && at < fields.len(),
            Request::Done(_) => false,
        },
    ensures
        match request {
            Request::Check(at) => {
                &&& run_well_formed(fields, after_present(s, at, fields[at as int], value))
                &&& run_well_formed(fields, after_absent(s, at))
                &&& run_well_formed(fields, after_failed(s, fields[at as int], why))
            },
            Request::Draw { at, .. } => {
                &&& run_well_formed(fields, after_produced(s, at, fields[at as int], value))
                &&& run_well_formed(fields, after_failed(s, fields[at as int], why))
            },
            Request::Hash(at) => {
                &&& run_well_formed(fields, after_produced(s, at, fields[at as int], value))
                &&& run_well_formed(fields, after_failed(s, fields[at as int], why))
            },
            Request::Write(at) => {
                &&& run_well_formed(fields, after_written(s, at))
                &&& run_well_formed(fields, after_failed(s, fields[at as int], why))
            },
            Request::Done(_) => true,
        },
{
    match request {
        Request::Check(at) => {
            let t = after_present(s, at, fields[at as int], value);
            assert(!s.held[at as int]);
            lemma_held_paths_prefix(fields, s.held, t.held, at);
            assert(held_at(t.held, at));
            assert(t.present.map_values(|h: HeldView| h.path) =~= s.present.map_values(
                |h: HeldView| h.path,
            ).push(fields[at as int].path));
            assert forall|i: int| at + 1 <= i < fields.len() implies !#[trigger] t.held[i] by {
                assert(t.held[i] == s.held[i]);
            }
            let u = after_absent(s, at);
            lemma_held_paths_prefix(fields, s.held, u.held, (at + 1) as nat);
            assert(!held_at(s.held, at));
        },
        Request::Draw { at, .. } => {
            lemma_produced_keeps_run_well_formed(fields, s, at, value);
        },
        Request::Hash(at) => {
            lemma_produced_keeps_run_well_formed(fields, s, at, value);
        },
        _ => {},
    }
}

proof fn lemma_produced_keeps_run_well_formed(
    fields: Seq<FieldView>,
    s: GenerateState,
    at: nat,
    value: Seq<u8>,
)
    requires
        run_well_formed(fields, s),
        s.failure is None,
        s.phase == Phase::MakeField(at),
        at < fields.len(),
        !fields[at as int].optional,
        !held_at(s.held, at),
    ensures
        run_well_formed(fields, after_produced(s, at, fields[at as int], value)),
{
    let t = after_produced(s, at, fields[at as int], value);
    if fields[at as int].kind.validity(value) is Ok {
        assert forall|i: int| 0 <= i < at + 1 implies {
            &&& (#[trigger] value_at(t.values, i as nat) is Some <==> (!fields[i].optional
                && !held_at(t.held, i as nat)))
            &&& (value_at(t.values, i as nat) matches Some(v) ==> fields[i].kind.validity(v)
                is Ok)
        } by {
            if i < at {
                assert(value_at(t.values, i as nat) == value_at(s.values, i as nat));
            }
        }
    }
}

/// The first field at or after `at`, and before `n`, with a value to write.
pub open spec fn first_to_write(values: Seq<Option<Seq<u8>>>, at: nat, n: nat) -> Option<nat>
    decreases n - at,
{
    if at >= n {
        None
    } else if value_at(values, at) is Some {
        Some(at)
    } else {
        first_to_write(values, at + 1, n)
    }
}

/// Produced values are written in declaration order and none is skipped:
/// from the write phase, the next request writes the first field at or after
/// the current position that has a value, and the run ends, successfully,
/// only once none is left.
pub proof fn lemma_writes_in_order(fields: Seq<FieldView>, s: GenerateState, at: nat)
    requires
        s.failure is None,
        s.phase == Phase::WriteField(at),
    ensures
        advance(fields, s) == match first_to_write(s.values, at, fields.len()) {
            Some(j) => (GenerateState { phase: Phase::WriteField(j), ..s }, Request::Write(j)),
            None => (GenerateState { phase: Phase::Done, ..s }, Request::Done(Ok(()))),
        },
        first_to_write(s.values, at, fields.len()) matches Some(j) ==> at <= j < fields.len()
            && value_at(s.values, j) is Some && forall|k: nat|
            at <= k < j ==> value_at(s.values, k) is None,
    decreases fields.len() - at,
{
    if at < fields.len() && value_at(s.values, at) is None {
        lemma_writes_in_order(fields, GenerateState { phase: Phase::WriteField(at + 1), ..s }, at + 1);
        if let Some(j) = first_to_write(s.values, at + 1, fields.len()) {
            assert forall|k: nat| at <= k < j implies value_at(s.values, k) is None by {
                if k > at {
                    assert(at + 1 <= k < j);
                }
            }
        }
    }
}

/// The first field at or after `at` that is neither optional nor held: the
/// next one a value is produced for.
pub open spec fn first_to_produce(fields: Seq<FieldView>, held: Seq<bool>, at: nat) -> Option<nat>
    decreases fields.len() - at,
{
    if at >= fields.len() {
        None
    } else if !fields[at as int].optional && !held_at(held, at) {
        Some(at)
    } else {
        first_to_produce(fields, held, at + 1)
    }
}

/// The request that produces a value for the field at `at`, as its type's
/// recipe says.
pub open spec fn production_request(fields: Seq<FieldView>, at: nat) -> Request {
    let field = fields[at as int];
    match field.kind.spec_recipe() {
        Some(Recipe::FromEntropy { bytes, build }) => Request::Draw { at, bytes, build },
        Some(Recipe::FromPassphrasePrompt) => Request::Hash(at),
        None => Request::Done(
            Err(Fault::Unable { path: field.path, kind_name: field.kind.spec_name() }),
        ),
    }
}

/// Values are produced in declaration order for every field that is neither
/// optional nor held, and for no other: from the production phase, the next
/// request produces for the first such field at or after the current
/// position; when none is left, writing begins.
pub proof fn lemma_productions_in_order(fields: Seq<FieldView>, s: GenerateState, at: nat)
    requires
        s.failure is None,
        s.phase == Phase::MakeField(at),
    ensures
        first_to_produce(fields, s.held, at) matches Some(j) ==> {
            &&& at <= j < fields.len()
            &&& advance(fields, s).1 == production_request(fields, j)
            &&& advance(fields, s) == advance(
                fields,
                GenerateState {
                    values: s.values + Seq::new((j - at) as nat, |i: int| None::<Seq<u8>>),
                    phase: Phase::MakeField(j),
                    ..s
                },
            )
            &&& forall|k: nat|
                at <= k < j ==> fields[k as int].optional || held_at(s.held, k)
        },
        first_to_produce(fields, s.held, at) is None ==> advance(fields, s) == advance(
            fields,
            GenerateState {
                values: s.values + Seq::new(
                    (if at < fields.len() {
                        fields.len() - at
                    } else {
                        0
                    }) as nat,
                    |i: int| None::<Seq<u8>>,
                ),
                phase: Phase::WriteField(0),
                ..s
            },
        ),
    decreases fields.len() - at,
{
    let n = fields.len();
    if at < n && (fields[at as int].optional || held_at(s.held, at)) {
        let t = GenerateState {
            values: s.values.push(None),
            phase: Phase::MakeField(at + 1),
            ..s
        };
        lemma_productions_in_order(fields, t, at + 1);
        if let Some(j) = first_to_produce(fields, s.held, at + 1) {
            assert forall|k: nat| at <= k < j implies fields[k as int].optional || held_at(
                s.held,
                k,
            ) by {
                if k > at {
                    assert(at + 1 <= k < j);
                }
            }
            let pad = |i: int| None::<Seq<u8>>;
            assert(t.values + Seq::new((j - (at + 1)) as nat, pad) =~= s.values + Seq::new(
                (j - at) as nat,
                pad,
            ));
        } else {
            let pad = |i: int| None::<Seq<u8>>;
            assert(t.values + Seq::new((n - (at + 1)) as nat, pad) =~= s.values + Seq::new(
                (n - at) as nat,
                pad,
            ));
        }
    } else if at >= n {
        assert(s.values + Seq::new(0, |i: int| None::<Seq<u8>>) =~= s.values);
    } else {
        assert(s.values + Seq::new(0, |i: int| None::<Seq<u8>>) =~= s.values);
    }
}

/// A run that has ended stays ended: once a step reports the run done, every
/// further step reports it done, successfully, and changes nothing.
pub proof fn lemma_done_is_final(fields: Seq<FieldView>, s: GenerateState)
    requires
        run_well_formed(fields, s),
        advance(fields, s).1 is Done,
    ensures
        advance(fields, advance(fields, s).0) == (advance(fields, s).0, Request::Done(Ok(()))),
{
    lemma_step_request(fields, s);
}

} // verus!
