//! Evaluating what a volume holds against the fields a schema lists.

use vstd::prelude::*;
use vstd::string::StringExecFns;

use crate::field_types::{field_type_named, parse};
use crate::schema::{Field, FieldEntry};

verus! {

broadcast use vstd::string::group_string_axioms;

/// What reading a field's value off the volume gave.
#[derive(Debug)]
pub enum ReadOutcome {
    /// The value stored.
    Present(Vec<u8>),
    /// Nothing is stored at the field's path.
    Missing,
    /// The value could not be read, and why.
    IoError(String),
}

/// A read, as plain values.
pub enum ReadView {
    Present(Seq<u8>),
    Missing,
    IoError(Seq<char>),
}

impl View for ReadOutcome {
    type V = ReadView;

    open spec fn view(&self) -> ReadView {
        match self {
            ReadOutcome::Present(bytes) => ReadView::Present(bytes@),
            ReadOutcome::Missing => ReadView::Missing,
            ReadOutcome::IoError(why) => ReadView::IoError(why@),
        }
    }
}

/// What a field's read makes of it: a missing required value, an unreadable
/// value, a value of an unknown type or a value its type refuses is an error
/// naming the field's path; a missing optional value and an accepted value are
/// fine.
pub open spec fn evaluation(field: FieldEntry, read: ReadView) -> Result<(), Seq<char>> {
    match read {
        ReadView::Missing => if !field.optional {
            Err(field.path + ": required but missing"@)
        } else {
            Ok(())
        },
        ReadView::IoError(why) => Err(field.path + ": read failed: "@ + why),
        ReadView::Present(bytes) => match field_type_named(field.declared_type) {
            None => Err(
                field.path + ": "@ + "unknown field type '"@ + field.declared_type + "'"@,
            ),
            Some(t) => match t.validity(bytes) {
                Ok(()) => Ok(()),
                Err(why) => Err(field.path + ": "@ + why),
            },
        },
    }
}

/// The errors of the first `upto` fields, each paired with its read, in order.
pub open spec fn evaluation_errors(
    fields: Seq<FieldEntry>,
    reads: Seq<ReadView>,
    upto: nat,
) -> Seq<Seq<char>>
    decreases upto,
{
    if upto == 0 {
        Seq::empty()
    } else {
        let prev = evaluation_errors(fields, reads, (upto - 1) as nat);
        match evaluation(fields[upto - 1], reads[upto - 1]) {
            Ok(()) => prev,
            Err(why) => prev.push(why),
        }
    }
}

/// Evaluates one field's read.
pub fn evaluate_one(field: &Field, read: &ReadOutcome) -> (verdict: Result<(), String>)
    ensures
        match verdict {
            Ok(()) => evaluation(field@, read@) == Ok::<(), Seq<char>>(()),
            Err(why) => evaluation(field@, read@) == Err::<(), Seq<char>>(why@),
        },
{
    match read {
        ReadOutcome::Missing => {
            if !field.optional {
                let mut why = field.path.clone();
                why.append(": required but missing");
                Err(why)
            } else {
                Ok(())
            }
        },
        ReadOutcome::IoError(e) => {
            let mut why = field.path.clone();
            why.append(": read failed: ");
            why.append(e.as_str());
            Err(why)
        },
        ReadOutcome::Present(bytes) => {
            let t = match parse(field) {
                Ok(t) => t,
                Err(reason) => {
                    let mut why = field.path.clone();
                    why.append(": ");
                    why.append(reason.as_str());
                    assert(why@ =~= field.path@ + ": "@ + "unknown field type '"@
                        + field.declared_type@ + "'"@);
                    return Err(why);
                },
            };
            match t.validate(bytes.as_slice()) {
                Ok(()) => Ok(()),
                Err(reason) => {
                    let mut why = field.path.clone();
                    why.append(": ");
                    why.append(reason);
                    Err(why)
                },
            }
        },
    }
}

/// Evaluates every field against its read, pairing them in order, and
/// reports every error, in order, or none.
pub fn evaluate_all(fields: &[Field], reads: &[ReadOutcome]) -> (verdict: Result<(), Vec<String>>)
    ensures
        ({
            let n = if fields@.len() <= reads@.len() {
                fields@.len()
            } else {
                reads@.len()
            };
            let errors = evaluation_errors(
                fields@.map_values(|f: Field| f@),
                reads@.map_values(|r: ReadOutcome| r@),
                n,
            );
            match verdict {
                Ok(()) => errors.len() == 0,
                Err(reported) => errors.len() > 0 && reported@.map_values(|s: String| s@)
                    == errors,
            }
        }),
        verdict is Ok <==> forall|i: int|
            0 <= i < fields@.len() && i < reads@.len() ==> match #[trigger] reads@[i] {
                ReadOutcome::Missing => fields@[i].optional,
                ReadOutcome::IoError(_) => false,
                ReadOutcome::Present(bytes) => field_type_named(fields@[i].declared_type@) matches Some(
                    t,
                ) && t.validity(bytes@) is Ok,
            },
{
    proof {
        let n = if fields@.len() <= reads@.len() {
            fields@.len()
        } else {
            reads@.len()
        };
        let fs = fields@.map_values(|f: Field| f@);
        let rs = reads@.map_values(|r: ReadOutcome| r@);
        lemma_accepted_when_every_field_is(fs, rs, n);
        assert forall|i: int| 0 <= i < n implies (evaluation(fs[i], rs[i]) is Ok <==> match #[trigger] reads@[i] {
            ReadOutcome::Missing => fields@[i].optional,
            ReadOutcome::IoError(_) => false,
            ReadOutcome::Present(bytes) => field_type_named(fields@[i].declared_type@) matches Some(
                t,
            ) && t.validity(bytes@) is Ok,
        }) by {
            assert(fs[i] == fields@[i]@);
            assert(rs[i] == reads@[i]@);
            lemma_evaluation_accepts(fs[i], rs[i]);
        }
    }
    let n = if fields.len() <= reads.len() {
        fields.len()
    } else {
        reads.len()
    };
    let ghost fs = fields@.map_values(|f: Field| f@);
    let ghost rs = reads@.map_values(|r: ReadOutcome| r@);
    let mut errors: Vec<String> = Vec::new();
    let mut i: usize = 0;
    assert(errors@.map_values(|s: String| s@) =~= Seq::<Seq<char>>::empty());
    while i < n
        invariant
            n <= fields@.len(),
            n <= reads@.len(),
            fs == fields@.map_values(|f: Field| f@),
            rs == reads@.map_values(|r: ReadOutcome| r@),
            i <= n,
            errors@.map_values(|s: String| s@) == evaluation_errors(fs, rs, i as nat),
        decreases n - i,
    {
        let ghost before = errors@.map_values(|s: String| s@);
        match evaluate_one(&fields[i], &reads[i]) {
            Ok(()) => {},
            Err(why) => {
                errors.push(why);
            },
        }
        proof {
            assert(fs[i as int] == fields@[i as int]@);
            assert(rs[i as int] == reads@[i as int]@);
            assert(errors@.map_values(|s: String| s@) =~= evaluation_errors(fs, rs, (i + 1) as nat));
        }
        i = i + 1;
    }
    if errors.len() == 0 {
        Ok(())
    } else {
        Err(errors)
    }
}

/// The positions, among the first `upto` reads, of those that found a value,
/// in increasing order.
pub open spec fn present_indices(reads: Seq<ReadView>, upto: nat) -> Seq<usize>
    decreases upto,
{
    if upto == 0 {
        Seq::empty()
    } else {
        let prev = present_indices(reads, (upto - 1) as nat);
        if reads[upto - 1] is Present {
            prev.push((upto - 1) as usize)
        } else {
            prev
        }
    }
}

/// The values read are exactly the ones listed: a position below `upto` is
/// listed if and only if its read found a value, and the list increases.
pub proof fn lemma_present_indices(reads: Seq<ReadView>, upto: nat)
    requires
        upto <= reads.len(),
        upto <= usize::MAX,
    ensures
        forall|i: int|
            0 <= i < upto ==> (present_indices(reads, upto).contains(i as usize) <==> #[trigger] reads[i]
                is Present),
        forall|k: int|
            0 <= k < present_indices(reads, upto).len() ==> #[trigger] present_indices(reads, upto)[k]
                < upto,
        forall|k: int, l: int|
            0 <= k < l < present_indices(reads, upto).len() ==> #[trigger] present_indices(reads, upto)[k]
                < #[trigger] present_indices(reads, upto)[l],
    decreases upto,
{
    if upto > 0 {
        let w = (upto - 1) as nat;
        lemma_present_indices(reads, w);
        let prev = present_indices(reads, w);
        let cur = present_indices(reads, upto);
        if reads[w as int] is Present {
            assert(cur == prev.push(w as usize));
            assert(cur[prev.len() as int] == w as usize);
            assert forall|i: int| 0 <= i < upto implies (cur.contains(i as usize) <==> #[trigger] reads[i]
                is Present) by {
                if i < w {
                    if cur.contains(i as usize) {
                        let k = choose|k: int| 0 <= k < cur.len() && cur[k] == i as usize;
                        if k < prev.len() {
                            assert(prev[k] == cur[k]);
                        }
                    }
                    if prev.contains(i as usize) {
                        let k = choose|k: int| 0 <= k < prev.len() && prev[k] == i as usize;
                        assert(cur[k] == prev[k]);
                    }
                }
            }
            assert forall|k: int, l: int| 0 <= k < l < cur.len() implies #[trigger] cur[k]
                < #[trigger] cur[l] by {
                assert(cur[k] == prev[k]);
                if l < prev.len() {
                    assert(cur[l] == prev[l]);
                }
            }
        } else {
            assert(cur == prev);
        }
    }
}

/// Decides what a resolve writes, given each listed field's read, in order:
/// when any field is not accepted, nothing, and every error, in order; when
/// every field is, the positions of the values read, in order, each to be
/// written where its field says. A missing optional value is not written.
pub fn resolve_writes(fields: &[Field], reads: &[ReadOutcome]) -> (plan: Result<Vec<usize>, Vec<String>>)
    requires
        fields@.len() == reads@.len(),
    ensures
        ({
            let entries = fields@.map_values(|f: Field| f@);
            let read_views = reads@.map_values(|r: ReadOutcome| r@);
            let errors = evaluation_errors(entries, read_views, fields@.len());
            &&& plan is Ok <==> forall|i: int|
                0 <= i < fields@.len() ==> #[trigger] evaluation(entries[i], read_views[i]) is Ok
            &&& plan matches Ok(written) ==> {
                &&& forall|i: int|
                    0 <= i < reads@.len() ==> (written@.contains(i as usize) <==> #[trigger] reads@[i]
                        is Present)
                &&& forall|k: int, l: int|
                    0 <= k < l < written@.len() ==> #[trigger] written@[k] < #[trigger] written@[l]
            }
            &&& match plan {
                Ok(written) => errors.len() == 0 && written@ == present_indices(
                    read_views,
                    reads@.len(),
                ),
                Err(reported) => errors.len() > 0 && reported@.map_values(|s: String| s@)
                    == errors,
            }
        }),
{
    let ghost entries = fields@.map_values(|f: Field| f@);
    let ghost read_views = reads@.map_values(|r: ReadOutcome| r@);
    proof {
        lemma_accepted_when_every_field_is(entries, read_views, fields@.len());
    }
    match evaluate_all(fields, reads) {
        Err(errors) => Err(errors),
        Ok(()) => {
            let mut written: Vec<usize> = Vec::new();
            let mut i: usize = 0;
            while i < reads.len()
                invariant
                    read_views == reads@.map_values(|r: ReadOutcome| r@),
                    i <= reads@.len(),
                    written@ == present_indices(read_views, i as nat),
                decreases reads@.len() - i,
            {
                let present = match &reads[i] {
                    ReadOutcome::Present(_) => true,
                    _ => false,
                };
                proof {
                    assert(read_views[i as int] == reads@[i as int]@);
                }
                if present {
                    written.push(i);
                }
                i = i + 1;
            }
            proof {
                lemma_present_indices(read_views, reads@.len());
                assert forall|i: int| 0 <= i < reads@.len() implies (read_views[i] is Present
                    <==> #[trigger] reads@[i] is Present) by {
                    assert(read_views[i] == reads@[i]@);
                }
            }
            Ok(written)
        },
    }
}

/// A field's read is accepted exactly when a value was read that the type
/// the field names accepts, or nothing is stored and the field is optional; a
/// read that failed is never accepted. Every error opens with the field's
/// path.
pub proof fn lemma_evaluation_accepts(field: FieldEntry, read: ReadView)
    ensures
        evaluation(field, read) is Ok <==> match read {
            ReadView::Missing => field.optional,
            ReadView::IoError(_) => false,
            ReadView::Present(bytes) => field_type_named(field.declared_type) matches Some(t)
                && t.validity(bytes) is Ok,
        },
        evaluation(field, read) matches Err(why) ==> field.path.is_prefix_of(why),
{
    if let Err(why) = evaluation(field, read) {
        assert(why.take(field.path.len() as int) =~= field.path);
    }
}

/// The errors reported are exactly those of the fields that fail, in order:
/// each comes from a failing field, and every failing field's error is
/// among them.
pub proof fn lemma_errors_are_the_failures(fields: Seq<FieldEntry>, reads: Seq<ReadView>, upto: nat)
    requires
        upto <= fields.len(),
        upto <= reads.len(),
    ensures
        forall|k: int|
            #![trigger evaluation_errors(fields, reads, upto)[k]]
            0 <= k < evaluation_errors(fields, reads, upto).len() ==> exists|i: int|
                0 <= i < upto && #[trigger] evaluation(fields[i], reads[i]) == Err::<(), Seq<char>>(
                    evaluation_errors(fields, reads, upto)[k],
                ),
        forall|i: int|
            0 <= i < upto ==> (#[trigger] evaluation(fields[i], reads[i]) matches Err(why)
                ==> evaluation_errors(fields, reads, upto).contains(why)),
    decreases upto,
{
    if upto > 0 {
        let w = (upto - 1) as nat;
        lemma_errors_are_the_failures(fields, reads, w);
        let prev = evaluation_errors(fields, reads, w);
        let cur = evaluation_errors(fields, reads, upto);
        match evaluation(fields[w as int], reads[w as int]) {
            Ok(()) => {
                assert(cur == prev);
            },
            Err(why) => {
                assert(cur == prev.push(why));
                assert(cur[prev.len() as int] == why);
                assert forall|k: int| #![trigger cur[k]] 0 <= k < cur.len() implies exists|i: int|
                    0 <= i < upto && #[trigger] evaluation(fields[i], reads[i]) == Err::<
                        (),
                        Seq<char>,
                    >(cur[k]) by {
                    if k < prev.len() {
                        assert(cur[k] == prev[k]);
                    } else {
                        assert(evaluation(fields[w as int], reads[w as int]) == Err::<(), Seq<char>>(
                            cur[k],
                        ));
                    }
                }
                assert forall|i: int| 0 <= i < upto implies (#[trigger] evaluation(
                    fields[i],
                    reads[i],
                ) matches Err(e) ==> cur.contains(e)) by {
                    if i < w {
                        if let Err(e) = evaluation(fields[i], reads[i]) {
                            let k = choose|k: int| 0 <= k < prev.len() && prev[k] == e;
                            assert(cur[k] == prev[k]);
                        }
                    }
                }
            },
        }
    }
}

/// A volume is accepted exactly when every field's read is: no reported
/// error means no field failed, and every field that failed is reported.
pub proof fn lemma_accepted_when_every_field_is(
    fields: Seq<FieldEntry>,
    reads: Seq<ReadView>,
    upto: nat,
)
    requires
        upto <= fields.len(),
        upto <= reads.len(),
    ensures
        evaluation_errors(fields, reads, upto).len() == 0 <==> forall|i: int|
            0 <= i < upto ==> #[trigger] evaluation(fields[i], reads[i]) is Ok,
    decreases upto,
{
    if upto > 0 {
        lemma_accepted_when_every_field_is(fields, reads, (upto - 1) as nat);
        let last = upto - 1;
        if evaluation(fields[last], reads[last]) is Ok {
            assert forall|i: int| 0 <= i < upto - 1 && (forall|j: int| 0 <= j < upto - 1 ==> #[trigger] evaluation(fields[j], reads[j]) is Ok) implies #[trigger] evaluation(fields[i], reads[i]) is Ok by {}
        }
    }
}

} // verus!
