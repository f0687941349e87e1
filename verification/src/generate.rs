//! The decisions made before a volume is provisioned: which tools are
//! missing, and which values would be overwritten.

use vstd::prelude::*;

use crate::field_types::FieldType;
use crate::schema::{Field, FieldEntry};
use crate::text::str_eq;

verus! {

broadcast use vstd::string::group_string_axioms;

/// The tools among the first `upto` that are not on the path, each named
/// once, in the order first needed.
pub open spec fn missing_tools(tools: Seq<Seq<char>>, on_path: Seq<bool>, upto: nat) -> Seq<
    Seq<char>,
>
    decreases upto,
{
    if upto == 0 {
        Seq::empty()
    } else {
        let prev = missing_tools(tools, on_path, (upto - 1) as nat);
        let tool = tools[upto - 1];
        if !on_path[upto - 1] && !prev.contains(tool) {
            prev.push(tool)
        } else {
            prev
        }
    }
}

/// The missing tools, spelled out: none is missing exactly when every tool
/// needed is on the path; otherwise each tool needed and not on the path is
/// named, no other, none twice, and in the order first needed: a tool named
/// earlier was needed, and missing, before the one named later was ever
/// needed and missing.
pub proof fn lemma_missing_tools(tools: Seq<Seq<char>>, on_path: Seq<bool>, upto: nat)
    requires
        upto <= tools.len(),
        upto <= on_path.len(),
    ensures
        ({
            let missing = missing_tools(tools, on_path, upto);
            &&& missing.len() == 0 <==> forall|i: int| 0 <= i < upto ==> #[trigger] on_path[i]
            &&& forall|i: int| 0 <= i < upto && !#[trigger] on_path[i] ==> missing.contains(tools[i])
            &&& forall|t: int|
                #![trigger missing[t]]
                0 <= t < missing.len() ==> exists|i: int|
                    0 <= i < upto && !on_path[i] && #[trigger] tools[i] == missing[t]
            &&& missing.no_duplicates()
            &&& forall|s: int, t: int|
                #![trigger missing[s], missing[t]]
                0 <= s < t < missing.len() ==> exists|i: int|
                    #![trigger tools[i]]
                    0 <= i < upto && !on_path[i] && tools[i] == missing[s] && forall|j: int|
                        0 <= j <= i && !on_path[j] ==> tools[j] != missing[t]
        }),
    decreases upto,
{
    if upto > 0 {
        let w = (upto - 1) as nat;
        lemma_missing_tools(tools, on_path, w);
        let prev = missing_tools(tools, on_path, w);
        let missing = missing_tools(tools, on_path, upto);
        let tool = tools[w as int];
        if !on_path[w as int] && !prev.contains(tool) {
            assert(missing == prev.push(tool));
            assert(missing[prev.len() as int] == tool);
            assert forall|t: int| #![trigger missing[t]] 0 <= t < missing.len() implies exists|i: int|
                0 <= i < upto && !on_path[i] && #[trigger] tools[i] == missing[t] by {
                if t < prev.len() {
                    assert(missing[t] == prev[t]);
                } else {
                    assert(tools[w as int] == missing[t]);
                }
            }
            assert forall|i: int| 0 <= i < upto && !#[trigger] on_path[i] implies missing.contains(
                tools[i],
            ) by {
                if i < w {
                    let k = choose|k: int| 0 <= k < prev.len() && prev[k] == tools[i];
                    assert(missing[k] == tools[i]);
                }
            }
            assert forall|s: int, t: int| #![trigger missing[s], missing[t]] 0 <= s < t < missing.len() implies exists|i: int|
                #![trigger tools[i]]
                0 <= i < upto && !on_path[i] && tools[i] == missing[s] && forall|j: int|
                    0 <= j <= i && !on_path[j] ==> tools[j] != missing[t] by {
                assert(missing[s] == prev[s]);
                if t < prev.len() {
                    assert(missing[t] == prev[t]);
                } else {
                    let i = choose|i: int| 0 <= i < w && !on_path[i] && #[trigger] tools[i] == prev[s];
                    assert forall|j: int| 0 <= j <= i && !on_path[j] implies tools[j] != missing[t] by {
                        assert(prev.contains(tools[j]));
                    }
                }
            }
        } else {
            assert(missing == prev);
            assert forall|i: int| 0 <= i < upto && !#[trigger] on_path[i] implies missing.contains(
                tools[i],
            ) by {}
        }
        assert(missing.len() == 0 <==> forall|i: int| 0 <= i < upto ==> #[trigger] on_path[i]) by {
            if missing.len() == 0 {
                assert forall|i: int| 0 <= i < upto implies #[trigger] on_path[i] by {
                    if !on_path[i] {
                        assert(missing.contains(tools[i]));
                    }
                }
            } else {
                let t = 0int;
                let i = choose|i: int| 0 <= i < upto && !on_path[i] && #[trigger] tools[i] == missing[t];
                assert(!on_path[i]);
            }
        }
    }
}

/// The paths of the first `upto` fields whose value the volume already holds,
/// in order.
pub open spec fn existing_paths(fields: Seq<FieldEntry>, existing: Seq<bool>, upto: nat) -> Seq<
    Seq<char>,
>
    decreases upto,
{
    if upto == 0 {
        Seq::empty()
    } else {
        let prev = existing_paths(fields, existing, (upto - 1) as nat);
        if existing[upto - 1] {
            prev.push(fields[upto - 1].path)
        } else {
            prev
        }
    }
}

/// The tools the first `upto` field types need, in field order, each type's
/// own in its order.
pub open spec fn tools_of(types: Seq<FieldType>, upto: nat) -> Seq<Seq<char>>
    decreases upto,
{
    if upto == 0 {
        Seq::empty()
    } else {
        tools_of(types, (upto - 1) as nat) + types[upto - 1].tools_needed()
    }
}

/// Some field type below `upto` needs `tool`.
pub open spec fn needed_by_one(types: Seq<FieldType>, upto: nat, tool: Seq<char>) -> bool {
    exists|i: int| 0 <= i < upto && #[trigger] types[i].tools_needed().contains(tool)
}

/// The listed tools are exactly those the field types need: every tool a type
/// below `upto` needs is listed, and every tool listed is needed by one.
pub proof fn lemma_tools_of(types: Seq<FieldType>, upto: nat)
    requires
        upto <= types.len(),
    ensures
        forall|i: int, j: int|
            0 <= i < upto && 0 <= j < types[i].tools_needed().len() ==> tools_of(
                types,
                upto,
            ).contains(#[trigger] types[i].tools_needed()[j]),
        forall|k: int|
            0 <= k < tools_of(types, upto).len() ==> needed_by_one(
                types,
                upto,
                #[trigger] tools_of(types, upto)[k],
            ),
    decreases upto,
{
    if upto > 0 {
        let w = (upto - 1) as nat;
        lemma_tools_of(types, w);
        let prev = tools_of(types, w);
        let own = types[w as int].tools_needed();
        let cur = tools_of(types, upto);
        assert(cur == prev + own);
        assert forall|i: int, j: int|
            0 <= i < upto && 0 <= j < types[i].tools_needed().len() implies cur.contains(
                #[trigger] types[i].tools_needed()[j],
            ) by {
            if i < w {
                let k = choose|k: int| 0 <= k < prev.len() && prev[k] == types[i].tools_needed()[j];
                assert(cur[k] == prev[k]);
            } else {
                assert(cur[prev.len() + j] == own[j]);
            }
        }
        assert forall|k: int| 0 <= k < cur.len() implies needed_by_one(types, upto, #[trigger] cur[k]) by {
            if k < prev.len() {
                assert(cur[k] == prev[k]);
                assert(needed_by_one(types, w, prev[k]));
                let i = choose|i: int| 0 <= i < w && #[trigger] types[i].tools_needed().contains(prev[k]);
                assert(types[i].tools_needed().contains(cur[k]));
            } else {
                assert(cur[k] == own[k - prev.len()]);
                assert(types[w as int].tools_needed().contains(cur[k]));
            }
        }
    } else {
        assert(tools_of(types, upto).len() == 0);
    }
}

/// The tools provisioning needs, in the order first required: those of each
/// field's type, in field order, then those of the way the operator is
/// asked. This is the list `preflight` checks.
pub fn tools_needed(types: &[FieldType], asker_tools: &[&'static str]) -> (tools: Vec<&'static str>)
    ensures
        tools@.map_values(|t: &str| t@) == tools_of(types@, types@.len()) + asker_tools@.map_values(
            |t: &str| t@,
        ),
        forall|i: int, j: int|
            0 <= i < types@.len() && 0 <= j < types@[i].tools_needed().len() ==> tools@.map_values(
                |t: &str| t@,
            ).contains(#[trigger] types@[i].tools_needed()[j]),
        forall|k: int|
            0 <= k < asker_tools@.len() ==> tools@.map_values(|t: &str| t@).contains(
                #[trigger] asker_tools@[k]@,
            ),
        forall|k: int|
            #![trigger tools@[k]]
            0 <= k < tools@.len() ==> needed_by_one(types@, types@.len(), tools@[k]@)
                || asker_tools@.map_values(|t: &str| t@).contains(tools@[k]@),
{
    proof {
        lemma_tools_of(types@, types@.len());
    }
    let mut tools: Vec<&'static str> = Vec::new();
    let mut i: usize = 0;
    assert(tools@.map_values(|t: &str| t@) =~= tools_of(types@, 0));
    while i < types.len()
        invariant
            i <= types@.len(),
            tools@.map_values(|t: &str| t@) == tools_of(types@, i as nat),
        decreases types@.len() - i,
    {
        let own = types[i].required_tools();
        let ghost before = tools@.map_values(|t: &str| t@);
        let mut j: usize = 0;
        while j < own.len()
            invariant
                j <= own@.len(),
                own@.map_values(|t: &str| t@) == types@[i as int].tools_needed(),
                tools@.map_values(|t: &str| t@) == before + own@.map_values(|t: &str| t@).take(
                    j as int,
                ),
            decreases own@.len() - j,
        {
            let ghost prior = tools@;
            tools.push(own[j]);
            assert(tools@.map_values(|t: &str| t@) =~= prior.map_values(|t: &str| t@).push(own@[j as int]@));
            assert(own@.map_values(|t: &str| t@).take(j + 1) =~= own@.map_values(|t: &str| t@).take(
                j as int,
            ).push(own@[j as int]@));
            assert(tools@.map_values(|t: &str| t@) =~= before + own@.map_values(|t: &str| t@).take(
                j + 1,
            ));
            j = j + 1;
        }
        assert(own@.map_values(|t: &str| t@).take(j as int) =~= own@.map_values(|t: &str| t@));
        i = i + 1;
    }
    let ghost fields_part = tools@.map_values(|t: &str| t@);
    let mut k: usize = 0;
    assert(asker_tools@.map_values(|t: &str| t@).take(0) =~= Seq::<Seq<char>>::empty());
    assert(tools@.map_values(|t: &str| t@) =~= fields_part + asker_tools@.map_values(|t: &str| t@).take(0));
    while k < asker_tools.len()
        invariant
            k <= asker_tools@.len(),
            tools@.map_values(|t: &str| t@) == fields_part + asker_tools@.map_values(|t: &str| t@).take(
                k as int,
            ),
        decreases asker_tools@.len() - k,
    {
        let ghost prior = tools@;
        tools.push(asker_tools[k]);
        assert(tools@.map_values(|t: &str| t@) =~= prior.map_values(|t: &str| t@).push(asker_tools@[k as int]@));
        assert(asker_tools@.map_values(|t: &str| t@).take(k + 1) =~= asker_tools@.map_values(|t: &str| t@).take(
            k as int,
        ).push(asker_tools@[k as int]@));
        assert(tools@.map_values(|t: &str| t@) =~= fields_part + asker_tools@.map_values(
            |t: &str| t@,
        ).take(k + 1));
        k = k + 1;
    }
    assert(asker_tools@.map_values(|t: &str| t@).take(k as int) =~= asker_tools@.map_values(
        |t: &str| t@,
    ));
    proof {
        let all = tools@.map_values(|t: &str| t@);
        let own = tools_of(types@, types@.len());
        let asked = asker_tools@.map_values(|t: &str| t@);
        assert(all == own + asked);
        assert forall|i: int, j: int|
            0 <= i < types@.len() && 0 <= j < types@[i].tools_needed().len() implies all.contains(
                #[trigger] types@[i].tools_needed()[j],
            ) by {
            let k = choose|k: int| 0 <= k < own.len() && own[k] == types@[i].tools_needed()[j];
            assert(all[k] == own[k]);
        }
        assert forall|k: int| 0 <= k < asker_tools@.len() implies all.contains(
            #[trigger] asker_tools@[k]@,
        ) by {
            assert(all[own.len() + k] == asked[k]);
        }
        assert forall|k: int| #![trigger tools@[k]] 0 <= k < tools@.len() implies needed_by_one(types@, types@.len(), tools@[k]@)
            || asker_tools@.map_values(|t: &str| t@).contains(tools@[k]@) by {
            assert(all.len() == tools@.len());
            assert(all[k] == tools@[k]@);
            if k < own.len() {
                assert(own[k] == all[k]);
                assert(needed_by_one(types@, types@.len(), own[k]));
            } else {
                assert(asked[k - own.len()] == all[k]);
            }
        }
    }
    tools
}

/// Checks that every tool needed is on the path, given for each tool, in the
/// order needed, whether it is. Names every missing tool once, in the order
/// first needed.
pub fn preflight(tools: &[&str], on_path: &[bool]) -> (verdict: Result<(), Vec<String>>)
    requires
        tools@.len() == on_path@.len(),
    ensures
        ({
            let missing = missing_tools(tools@.map_values(|t: &str| t@), on_path@, tools@.len());
            match verdict {
                Ok(()) => missing.len() == 0,
                Err(named) => missing.len() > 0 && named@.map_values(|s: String| s@) == missing,
            }
        }),
        verdict is Ok <==> forall|i: int| 0 <= i < on_path@.len() ==> #[trigger] on_path@[i],
        verdict matches Err(named) ==> {
            &&& forall|i: int|
                0 <= i < tools@.len() && !#[trigger] on_path@[i] ==> named@.map_values(
                    |s: String| s@,
                ).contains(tools@[i]@)
            &&& forall|k: int|
                #![trigger named@[k]]
                0 <= k < named@.len() ==> exists|i: int|
                    #![trigger tools@[i]]
                    0 <= i < tools@.len() && !on_path@[i] && tools@[i]@ == named@[k]@
            &&& named@.map_values(|s: String| s@).no_duplicates()
        },
{
    let ghost names = tools@.map_values(|t: &str| t@);
    proof {
        lemma_missing_tools(names, on_path@, tools@.len());
    }
    let mut missing: Vec<String> = Vec::new();
    let mut i: usize = 0;
    assert(missing@.map_values(|s: String| s@) =~= Seq::<Seq<char>>::empty());
    while i < tools.len()
        invariant
            tools@.len() == on_path@.len(),
            names == tools@.map_values(|t: &str| t@),
            i <= tools@.len(),
            missing@.map_values(|s: String| s@) == missing_tools(names, on_path@, i as nat),
        decreases tools@.len() - i,
    {
        let ghost before = missing@.map_values(|s: String| s@);
        let tool = tools[i];
        if !on_path[i] {
            let mut j: usize = 0;
            let mut seen = false;
            while j < missing.len()
                invariant
                    before == missing@.map_values(|s: String| s@),
                    j <= missing@.len(),
                    seen == exists|k: int| 0 <= k < j && #[trigger] before[k] == tool@,
                decreases missing@.len() - j,
            {
                assert(before[j as int] == missing@[j as int]@);
                if str_eq(missing[j].as_str(), tool) {
                    seen = true;
                }
                j = j + 1;
                assert(seen == exists|k: int| 0 <= k < j && #[trigger] before[k] == tool@) by {
                    if exists|k: int| 0 <= k < j && #[trigger] before[k] == tool@ {
                        let k = choose|k: int| 0 <= k < j && #[trigger] before[k] == tool@;
                        if k < j - 1 {
                            assert(0 <= k < j - 1 && before[k] == tool@);
                        }
                    }
                }
            }
            proof {
                assert(seen == before.contains(tool@));
            }
            if !seen {
                missing.push(tool.to_owned());
            }
        }
        proof {
            assert(names[i as int] == tool@);
            assert(missing@.map_values(|s: String| s@) =~= missing_tools(names, on_path@, (i + 1) as nat));
        }
        i = i + 1;
    }
    proof {
        let m = missing@.map_values(|s: String| s@);
        assert forall|k: int| #![trigger missing@[k]] 0 <= k < missing@.len() implies exists|i: int|
            #![trigger tools@[i]]
            0 <= i < tools@.len() && !on_path@[i] && tools@[i]@ == missing@[k]@ by {
            assert(m[k] == missing@[k]@);
            let i = choose|i: int|
                #![trigger names[i]]
                0 <= i < tools@.len() && !on_path@[i] && names[i] == m[k];
            assert(names[i] == tools@[i]@);
        }
        assert forall|i: int| 0 <= i < tools@.len() && !#[trigger] on_path@[i] implies m.contains(
            tools@[i]@,
        ) by {
            assert(names[i] == tools@[i]@);
        }
    }
    if missing.len() == 0 {
        Ok(())
    } else {
        Err(missing)
    }
}

/// The paths listed are exactly those of the fields found held: none is
/// listed exactly when no field below `upto` is held; every held field's
/// path is listed, in position; and every path listed is a held field's.
pub proof fn lemma_existing_paths(fields: Seq<FieldEntry>, existing: Seq<bool>, upto: nat)
    requires
        upto <= fields.len(),
        upto <= existing.len(),
    ensures
        existing_paths(fields, existing, upto).len() == 0 <==> forall|i: int|
            0 <= i < upto ==> !#[trigger] existing[i],
        forall|i: int|
            0 <= i < upto && #[trigger] existing[i] ==> existing_paths(fields, existing, upto).contains(
                fields[i].path,
            ),
        forall|k: int|
            #![trigger existing_paths(fields, existing, upto)[k]]
            0 <= k < existing_paths(fields, existing, upto).len() ==> exists|i: int|
                #![trigger fields[i]]
                0 <= i < upto && existing[i] && fields[i].path == existing_paths(
                    fields,
                    existing,
                    upto,
                )[k],
    decreases upto,
{
    if upto > 0 {
        let w = (upto - 1) as nat;
        lemma_existing_paths(fields, existing, w);
        let prev = existing_paths(fields, existing, w);
        let cur = existing_paths(fields, existing, upto);
        if existing[w as int] {
            assert(cur == prev.push(fields[w as int].path));
            assert(cur[prev.len() as int] == fields[w as int].path);
            assert forall|i: int| 0 <= i < upto && #[trigger] existing[i] implies cur.contains(
                fields[i].path,
            ) by {
                if i < w {
                    let k = choose|k: int| 0 <= k < prev.len() && prev[k] == fields[i].path;
                    assert(cur[k] == prev[k]);
                }
            }
            assert forall|k: int| #![trigger cur[k]] 0 <= k < cur.len() implies exists|i: int|
                #![trigger fields[i]]
                0 <= i < upto && existing[i] && fields[i].path == cur[k] by {
                if k < prev.len() {
                    assert(cur[k] == prev[k]);
                } else {
                    assert(fields[w as int].path == cur[k]);
                }
            }
        } else {
            assert(cur == prev);
        }
    }
}

/// Refuses to overwrite values the volume already holds, given for each field,
/// in order, whether the volume holds a value at its path. Names every such
/// path, in order.
pub fn refuse_overwrites(fields: &[Field], existing: &[bool]) -> (verdict: Result<(), Vec<String>>)
    requires
        fields@.len() == existing@.len(),
    ensures
        ({
            let held = existing_paths(
                fields@.map_values(|f: Field| f@),
                existing@,
                fields@.len(),
            );
            match verdict {
                Ok(()) => held.len() == 0,
                Err(named) => held.len() > 0 && named@.map_values(|s: String| s@) == held,
            }
        }),
        verdict is Ok <==> forall|i: int| 0 <= i < existing@.len() ==> !#[trigger] existing@[i],
        verdict matches Err(named) ==> {
            &&& forall|i: int|
                0 <= i < fields@.len() && #[trigger] existing@[i] ==> named@.map_values(
                    |s: String| s@,
                ).contains(fields@[i].path@)
            &&& forall|k: int|
                #![trigger named@[k]]
                0 <= k < named@.len() ==> exists|i: int|
                    #![trigger fields@[i]]
                    0 <= i < fields@.len() && existing@[i] && fields@[i].path@ == named@[k]@
        },
{
    let ghost entries = fields@.map_values(|f: Field| f@);
    proof {
        lemma_existing_paths(entries, existing@, fields@.len());
        assert forall|i: int| 0 <= i < fields@.len() implies #[trigger] entries[i] == fields@[i]@ by {}
    }
    let mut held: Vec<String> = Vec::new();
    let mut i: usize = 0;
    assert(held@.map_values(|s: String| s@) =~= Seq::<Seq<char>>::empty());
    while i < fields.len()
        invariant
            fields@.len() == existing@.len(),
            entries == fields@.map_values(|f: Field| f@),
            i <= fields@.len(),
            held@.map_values(|s: String| s@) == existing_paths(entries, existing@, i as nat),
        decreases fields@.len() - i,
    {
        if existing[i] {
            held.push(fields[i].path.clone());
        }
        proof {
            assert(entries[i as int] == fields@[i as int]@);
            assert(held@.map_values(|s: String| s@) =~= existing_paths(entries, existing@, (i + 1) as nat));
        }
        i = i + 1;
    }
    proof {
        let m = held@.map_values(|s: String| s@);
        assert forall|k: int| #![trigger held@[k]] 0 <= k < held@.len() implies exists|i: int|
            #![trigger fields@[i]]
            0 <= i < fields@.len() && existing@[i] && fields@[i].path@ == held@[k]@ by {
            assert(m[k] == held@[k]@);
            let i = choose|i: int|
                #![trigger entries[i]]
                0 <= i < fields@.len() && existing@[i] && entries[i].path == m[k];
            assert(entries[i] == fields@[i]@);
        }
        assert forall|i: int| 0 <= i < fields@.len() && #[trigger] existing@[i] implies m.contains(
            fields@[i].path@,
        ) by {
            assert(entries[i] == fields@[i]@);
        }
    }
    if held.len() == 0 {
        Ok(())
    } else {
        Err(held)
    }
}

} // verus!
