//! The schema a system expects of its identity volume.

pub mod declared;

use vstd::prelude::*;
use vstd::string::StringExecFns;
use vstd::string::StrSliceExecFns;

use crate::engine::field_type::{kind_named, FieldKind};
use crate::text::{
    chars_of, decimal, first_where, is_first_where, lemma_first_where, lemma_first_where_found,
    push_decimal, split_chars,
    split_on, tail,
};
use self::declared::{optional_view, FieldDeclaration};

verus! {

broadcast use vstd::string::group_string_axioms;

/// The components of a path that starts with `/`: what follows the leading
/// `/`, split on `/`.
pub open spec fn path_components(path: Seq<char>) -> Seq<Seq<char>> {
    split_on(path.drop_first(), '/')
}

/// What is wrong with a single path component, if anything: it is empty, it is
/// `.` or `..`, or it holds a NUL.
pub open spec fn component_fault(component: Seq<char>) -> Option<PathError> {
    if component.len() == 0 {
        Some(PathError::EmptyComponent)
    } else if component == seq!['.'] || component == seq!['.', '.'] {
        Some(PathError::RelativeComponent)
    } else if component.contains('\0') {
        Some(PathError::Nul)
    } else {
        None
    }
}

/// A component with something wrong with it.
pub open spec fn is_faulty_component() -> spec_fn(Seq<char>) -> bool {
    |c: Seq<char>| component_fault(c) is Some
}

/// What a field path parser makes of `path`: it must be non-empty, start with
/// `/`, and every component after that must be sound; the first faulty
/// component decides the error.
pub open spec fn path_verdict(path: Seq<char>) -> Result<(), PathError> {
    if path.len() == 0 {
        Err(PathError::Empty)
    } else if path[0] != '/' {
        Err(PathError::NotAbsolute)
    } else {
        match first_where(path_components(path), is_faulty_component()) {
            Some(i) => Err(component_fault(path_components(path)[i])->Some_0),
            None => Ok(()),
        }
    }
}

/// A field whose every part orma can act on, as plain values.
pub struct FieldView {
    pub path: Seq<char>,
    pub declared_type: Seq<char>,
    pub kind: FieldKind,
    pub optional: bool,
    pub description: Option<Seq<char>>,
}

/// What schema admission makes of a schema file's error, as plain values.
pub enum SchemaFault {
    UnsupportedVersion(u64),
    Path { path: Seq<char>, source: PathError },
    DuplicatePath(Seq<char>),
    UnknownFieldType { path: Seq<char>, declared_type: Seq<char> },
}

/// Admits declared fields one after the other: each must have a sound path
/// that no earlier field uses and a type orma knows. The first field that
/// fails decides the error.
pub open spec fn admitted(declared: Seq<FieldDeclaration>) -> Result<Seq<FieldView>, SchemaFault>
    decreases declared.len(),
{
    if declared.len() == 0 {
        Ok(Seq::empty())
    } else {
        match admitted(declared.drop_last()) {
            Err(e) => Err(e),
            Ok(prev) => {
                let d = declared.last();
                match path_verdict(d.path) {
                    Err(source) => Err(SchemaFault::Path { path: d.path, source }),
                    Ok(()) => if exists|j: int| 0 <= j < prev.len() && #[trigger] prev[j].path == d.path {
                        Err(SchemaFault::DuplicatePath(d.path))
                    } else {
                        match kind_named(d.declared_type) {
                            None => Err(
                                SchemaFault::UnknownFieldType {
                                    path: d.path,
                                    declared_type: d.declared_type,
                                },
                            ),
                            Some(kind) => Ok(
                                prev.push(
                                    FieldView {
                                        path: d.path,
                                        declared_type: d.declared_type,
                                        kind,
                                        optional: d.optional,
                                        description: d.description,
                                    },
                                ),
                            ),
                        }
                    },
                }
            },
        }
    }
}

/// What schema admission makes of a schema file: version 1 only, and every
/// field admitted.
pub open spec fn schema_verdict(version: u64, declared: Seq<FieldDeclaration>) -> Result<
    Seq<FieldView>,
    SchemaFault,
> {
    if version != 1 {
        Err(SchemaFault::UnsupportedVersion(version))
    } else {
        admitted(declared)
    }
}

/// The fields of an admitted schema: paths that parse and that no two fields
/// share, and kinds named by their declared types.
pub open spec fn fields_well_formed(fields: Seq<FieldView>) -> bool {
    &&& forall|i: int| 0 <= i < fields.len() ==> path_verdict(#[trigger] fields[i].path) is Ok
    &&& forall|i: int|
        0 <= i < fields.len() ==> kind_named(#[trigger] fields[i].declared_type) == Some(
            fields[i].kind,
        )
    &&& forall|i: int, j: int|
        0 <= i < fields.len() && 0 <= j < fields.len() && i != j ==> #[trigger] fields[i].path
            != #[trigger] fields[j].path
}

/// A schema whose every field is one orma can act on.
#[derive(Debug)]
pub struct Schema {
    fields: Vec<Field>,
}

impl View for Schema {
    type V = Seq<FieldView>;

    closed spec fn view(&self) -> Seq<FieldView> {
        self.fields@.map_values(|f: Field| f@)
    }
}

impl Schema {
    /// Admits a declared schema.
    #[verifier::loop_isolation(false)]
    pub fn new(declaration: declared::Schema) -> (admitted: Result<Schema, SchemaError>)
        ensures
            match admitted {
                Ok(schema) => schema_verdict(declaration.version, declaration.declared()) == Ok::<
                    Seq<FieldView>,
                    SchemaFault,
                >(schema@),
                Err(e) => schema_verdict(declaration.version, declaration.declared()) == Err::<
                    Seq<FieldView>,
                    SchemaFault,
                >(e@),
            },
            ({
                let d = declaration.declared();
                &&& declaration.version == 1 && (forall|i: int|
                    0 <= i < d.len() ==> path_verdict(#[trigger] d[i].path) is Ok) && (forall|
                    i: int,
                    j: int,
                | 0 <= i < j < d.len() ==> #[trigger] d[i].path != #[trigger] d[j].path) && (forall|
                    i: int,
                | 0 <= i < d.len() ==> kind_named(#[trigger] d[i].declared_type) is Some)
                    ==> admitted is Ok
                &&& admitted matches Err(SchemaError::DuplicatePath(p)) ==> exists|i: int, j: int|
                    0 <= i < j < d.len() && #[trigger] d[i].path == p@ && #[trigger] d[j].path
                        == p@
            }),
    {
        proof {
            let d = declaration.declared();
            if (forall|i: int| 0 <= i < d.len() ==> path_verdict(#[trigger] d[i].path) is Ok) && (
            forall|i: int, j: int| 0 <= i < j < d.len() ==> #[trigger] d[i].path
                != #[trigger] d[j].path) && (forall|i: int|
                0 <= i < d.len() ==> kind_named(#[trigger] d[i].declared_type) is Some) {
                lemma_sound_declarations_are_admitted(d);
            }
            lemma_duplicate_refusal_names_a_shared_path(d);
        }
        if declaration.version != 1 {
            return Err(SchemaError::UnsupportedVersion(declaration.version));
        }
        let ghost decls = declaration.declared();
        let mut fields: Vec<Field> = Vec::with_capacity(declaration.fields.len());
        let mut i: usize = 0;
        assert(decls.take(0) =~= Seq::<FieldDeclaration>::empty());
        assert(fields@.map_values(|f: Field| f@) =~= Seq::<FieldView>::empty());
        while i < declaration.fields.len()
            invariant
                decls == declaration.declared(),
                i <= declaration.fields@.len(),
                admitted(decls.take(i as int)) == Ok::<Seq<FieldView>, SchemaFault>(
                    fields@.map_values(|f: Field| f@),
                ),
            decreases declaration.fields@.len() - i,
        {
            let decl = &declaration.fields[i];
            let ghost prev = fields@.map_values(|f: Field| f@);
            proof {
                assert(decls.take(i + 1).drop_last() =~= decls.take(i as int));
                assert(decls.take(i + 1).last() == decl@);
            }
            let path = match FieldPath::parse(decl.path.as_str()) {
                Ok(path) => path,
                Err(source) => {
                    proof {
                        lemma_admitted_error_sticks(decls, i + 1);
                    }
                    return Err(SchemaError::Path { path: decl.path.clone(), source });
                },
            };
            let mut j: usize = 0;
            while j < fields.len()
                invariant
                    prev == fields@.map_values(|f: Field| f@),
                    j <= fields@.len(),
                    path@ == decl.path@,
                    forall|k: int| 0 <= k < j ==> #[trigger] prev[k].path != path@,
                decreases fields@.len() - j,
            {
                if fields[j].path.0 == path.0 {
                    proof {
                        assert(prev[j as int].path == decl.path@);
                        lemma_admitted_error_sticks(decls, i + 1);
                    }
                    return Err(SchemaError::DuplicatePath(path.0));
                }
                j = j + 1;
            }
            let kind = match FieldKind::parse(decl.declared_type.as_str()) {
                Some(kind) => kind,
                None => {
                    proof {
                        lemma_admitted_error_sticks(decls, i + 1);
                    }
                    return Err(
                        SchemaError::UnknownFieldType {
                            path: decl.path.clone(),
                            declared_type: decl.declared_type.clone(),
                        },
                    );
                },
            };
            let description = match &decl.description {
                Some(d) => Some(d.clone()),
                None => None,
            };
            fields.push(
                Field {
                    path,
                    declared_type: decl.declared_type.clone(),
                    kind,
                    optional: decl.optional,
                    description,
                },
            );
            i = i + 1;
            proof {
                assert(fields@.map_values(|f: Field| f@) =~= prev.push(fields@.last()@));
            }
        }
        proof {
            assert(decls.take(i as int) =~= decls);
        }
        Ok(Schema { fields })
    }

    /// The admitted fields, in declaration order.
    pub fn fields(&self) -> (fields: &[Field])
        ensures
            fields@.map_values(|f: Field| f@) == self@,
    {
        self.fields.as_slice()
    }
}

/// A field path is accepted exactly when it opens with `/` and every
/// component after that is non-empty, neither `.` nor `..`, and holds no NUL.
pub proof fn lemma_path_verdict(path: Seq<char>)
    ensures
        path_verdict(path) is Ok <==> {
            &&& path.len() > 0
            &&& path[0] == '/'
            &&& forall|i: int|
                0 <= i < split_on(path.drop_first(), '/').len() ==> {
                    let c = #[trigger] split_on(path.drop_first(), '/')[i];
                    &&& c.len() > 0
                    &&& c != seq!['.']
                    &&& c != seq!['.', '.']
                    &&& !c.contains('\0')
                }
        },
{
    if path.len() > 0 && path[0] == '/' {
        let comps = path_components(path);
        lemma_first_where(comps, is_faulty_component(), 0);
        if exists|i: int| 0 <= i < comps.len() && component_fault(#[trigger] comps[i]) is Some {
            let i = choose|i: int| 0 <= i < comps.len() && component_fault(#[trigger] comps[i]) is Some;
            lemma_first_where_found(comps, is_faulty_component(), i);
        } else {
            assert forall|j: int| 0 <= j < comps.len() implies !is_faulty_component()(
                #[trigger] comps[j],
            ) by {
                assert(component_fault(comps[j]) is None);
            }
        }
    }
}

/// A declaration whose every path is sound, whose paths are pairwise
/// distinct, and whose every type orma knows is admitted.
pub proof fn lemma_sound_declarations_are_admitted(declared: Seq<FieldDeclaration>)
    requires
        forall|i: int| 0 <= i < declared.len() ==> path_verdict(#[trigger] declared[i].path) is Ok,
        forall|i: int, j: int|
            0 <= i < j < declared.len() ==> #[trigger] declared[i].path != #[trigger] declared[j].path,
        forall|i: int|
            0 <= i < declared.len() ==> kind_named(#[trigger] declared[i].declared_type) is Some,
    ensures
        admitted(declared) is Ok,
    decreases declared.len(),
{
    if declared.len() > 0 {
        let init = declared.drop_last();
        assert forall|i: int| 0 <= i < init.len() implies path_verdict(#[trigger] init[i].path) is Ok by {
            assert(init[i] == declared[i]);
        }
        assert forall|i: int, j: int| 0 <= i < j < init.len() implies #[trigger] init[i].path
            != #[trigger] init[j].path by {
            assert(init[i] == declared[i] && init[j] == declared[j]);
        }
        assert forall|i: int| 0 <= i < init.len() implies kind_named(#[trigger] init[i].declared_type)
            is Some by {
            assert(init[i] == declared[i]);
        }
        lemma_sound_declarations_are_admitted(init);
        lemma_admitted_keeps_declarations(init);
        let prev = admitted(init)->Ok_0;
        let last = declared.len() - 1;
        assert(declared.last() == declared[last]);
        assert(path_verdict(declared[last].path) is Ok);
        assert(kind_named(declared[last].declared_type) is Some);
        assert forall|j: int| 0 <= j < prev.len() implies #[trigger] prev[j].path != declared.last().path by {
            assert(prev[j].path == init[j].path);
            assert(init[j] == declared[j]);
            assert(declared[j].path != declared[last].path);
        }
    }
}

/// A declaration is refused for a duplicate path only when two declared
/// fields share that path.
pub proof fn lemma_duplicate_refusal_names_a_shared_path(declared: Seq<FieldDeclaration>)
    ensures
        admitted(declared) matches Err(SchemaFault::DuplicatePath(p)) ==> exists|i: int, j: int|
            0 <= i < j < declared.len() && #[trigger] declared[i].path == p && #[trigger] declared[j].path
                == p,
    decreases declared.len(),
{
    if declared.len() > 0 {
        let init = declared.drop_last();
        lemma_duplicate_refusal_names_a_shared_path(init);
        if let Err(SchemaFault::DuplicatePath(p)) = admitted(declared) {
            match admitted(init) {
                Err(e) => {
                    let (i, j) = choose|i: int, j: int|
                        0 <= i < j < init.len() && #[trigger] init[i].path == p && #[trigger] init[j].path
                            == p;
                    assert(init[i] == declared[i] && init[j] == declared[j]);
                },
                Ok(prev) => {
                    lemma_admitted_keeps_declarations(init);
                    let last = declared.len() - 1;
                    assert(declared.last() == declared[last]);
                    let j = choose|j: int| 0 <= j < prev.len() && #[trigger] prev[j].path == declared.last().path;
                    assert(prev[j].path == init[j].path);
                    assert(init[j] == declared[j]);
                    assert(declared[j].path == p && declared[last].path == p);
                },
            }
        }
    }
}

/// Admission keeps the declaration: an admitted schema has one field per
/// declared field, in declaration order, each with the path, type name,
/// optionality and description it was declared with.
pub proof fn lemma_admitted_keeps_declarations(declared: Seq<FieldDeclaration>)
    ensures
        admitted(declared) matches Ok(fields) ==> {
            &&& fields.len() == declared.len()
            &&& forall|i: int|
                #![trigger fields[i]]
                0 <= i < fields.len() ==> {
                    &&& fields[i].path == declared[i].path
                    &&& fields[i].declared_type == declared[i].declared_type
                    &&& fields[i].optional == declared[i].optional
                    &&& fields[i].description == declared[i].description
                }
        },
    decreases declared.len(),
{
    if declared.len() > 0 {
        lemma_admitted_keeps_declarations(declared.drop_last());
        if let Ok(fields) = admitted(declared) {
            let prev = admitted(declared.drop_last())->Ok_0;
            let d = declared.last();
            assert(fields == prev.push(
                FieldView {
                    path: d.path,
                    declared_type: d.declared_type,
                    kind: kind_named(d.declared_type)->Some_0,
                    optional: d.optional,
                    description: d.description,
                },
            ));
            assert forall|i: int| #![trigger fields[i]] 0 <= i < fields.len() implies {
                &&& fields[i].path == declared[i].path
                &&& fields[i].declared_type == declared[i].declared_type
                &&& fields[i].optional == declared[i].optional
                &&& fields[i].description == declared[i].description
            } by {
                if i < prev.len() {
                    assert(fields[i] == prev[i]);
                    assert(declared.drop_last()[i] == declared[i]);
                } else {
                    assert(declared[i] == d);
                }
            }
        }
    }
}

/// An error found among the first `at` declared fields is the error of the
/// whole declaration.
proof fn lemma_admitted_error_sticks(declared: Seq<FieldDeclaration>, at: int)
    requires
        0 <= at <= declared.len(),
        admitted(declared.take(at)) is Err,
    ensures
        admitted(declared) == admitted(declared.take(at)),
    decreases declared.len() - at,
{
    if at < declared.len() {
        assert(declared.take(at + 1).drop_last() =~= declared.take(at));
        lemma_admitted_error_sticks(declared, at + 1);
    } else {
        assert(declared.take(at) =~= declared);
    }
}

/// Every admitted schema has fields with sound, pairwise distinct paths and
/// known types.
pub proof fn lemma_admitted_fields_well_formed(version: u64, declared: Seq<FieldDeclaration>)
    ensures
        schema_verdict(version, declared) matches Ok(fields) ==> fields_well_formed(fields),
    decreases declared.len(),
{
    if version == 1 && declared.len() > 0 {
        lemma_admitted_fields_well_formed(version, declared.drop_last());
        if let (Ok(fields), Ok(prev)) = (admitted(declared), admitted(declared.drop_last())) {
            assert(fields.drop_last() =~= prev);
            assert forall|i: int, j: int|
                0 <= i < fields.len() && 0 <= j < fields.len() && i != j implies #[trigger] fields[i].path
                != #[trigger] fields[j].path by {
                if i < prev.len() && j < prev.len() {
                    assert(fields[i] == prev[i] && fields[j] == prev[j]);
                } else if i < prev.len() {
                    assert(fields[i] == prev[i]);
                } else {
                    assert(fields[j] == prev[j]);
                }
            }
            assert forall|i: int| 0 <= i < fields.len() implies path_verdict(
                #[trigger] fields[i].path,
            ) is Ok by {
                if i < prev.len() {
                    assert(fields[i] == prev[i]);
                }
            }
            assert forall|i: int| 0 <= i < fields.len() implies kind_named(
                #[trigger] fields[i].declared_type,
            ) == Some(fields[i].kind) by {
                if i < prev.len() {
                    assert(fields[i] == prev[i]);
                }
            }
        }
    }
}

/// A field of an admitted schema.
#[derive(Debug)]
pub struct Field {
    path: FieldPath,
    declared_type: String,
    kind: FieldKind,
    optional: bool,
    description: Option<String>,
}

impl View for Field {
    type V = FieldView;

    closed spec fn view(&self) -> FieldView {
        FieldView {
            path: self.path@,
            declared_type: self.declared_type@,
            kind: self.kind,
            optional: self.optional,
            description: optional_view(self.description),
        }
    }
}

impl Field {
    /// Where inside the volume the value is stored.
    pub fn path(&self) -> (path: &FieldPath)
        ensures
            path@ == self@.path,
    {
        &self.path
    }

    /// The spelling of the field's type, as the schema declares it.
    pub fn declared_type(&self) -> (name: &str)
        ensures
            name@ == self@.declared_type,
    {
        self.declared_type.as_str()
    }

    /// The type of value the field holds.
    pub fn kind(&self) -> (kind: FieldKind)
        ensures
            kind == self@.kind,
    {
        self.kind
    }

    /// Whether the volume may go without the value.
    pub fn is_optional(&self) -> (optional: bool)
        ensures
            optional == self@.optional,
    {
        self.optional
    }

    /// What the value is for, if the schema says.
    pub fn description(&self) -> (description: Option<&str>)
        ensures
            match description {
                Some(d) => self@.description == Some(d@),
                None => self@.description is None,
            },
    {
        match &self.description {
            Some(d) => Some(d.as_str()),
            None => None,
        }
    }
}

/// Path to a file containing the field value inside the volume.
///
/// Paths outside the volume (e.g. `.`, `..`, ...) are rejected.
#[derive(Debug, PartialEq, Eq)]
pub struct FieldPath(String);

impl Clone for FieldPath {
    fn clone(&self) -> (copy: Self)
        ensures
            copy@ == self@,
    {
        proof {
            use_type_invariant(self);
        }
        FieldPath(self.0.clone())
    }
}

impl View for FieldPath {
    type V = Seq<char>;

    closed spec fn view(&self) -> Seq<char> {
        self.0@
    }
}

impl FieldPath {
    /// A field path opens with a slash.
    #[verifier::type_invariant]
    spec fn opens_with_slash(&self) -> bool {
        self.0@.len() > 0 && self.0@[0] == '/'
    }

    /// Parses a field path.
    pub fn parse(value: &str) -> (parsed: Result<FieldPath, PathError>)
        ensures
            match parsed {
                Ok(path) => path_verdict(value@) == Ok::<(), PathError>(()) && path@ == value@,
                Err(e) => path_verdict(value@) == Err::<(), PathError>(e),
            },
    {
        let chars = chars_of(value);
        if chars.len() == 0 {
            return Err(PathError::Empty);
        }
        if chars[0] != '/' {
            return Err(PathError::NotAbsolute);
        }
        let rest = tail(&chars);
        let components = split_chars(rest.as_slice(), '/');
        let ghost pieces = components@.map_values(|c: Vec<char>| c@);
        assert(pieces == path_components(value@));
        let mut i: usize = 0;
        while i < components.len()
            invariant
                pieces == components@.map_values(|c: Vec<char>| c@),
                pieces == path_components(value@),
                value@.len() > 0 && value@[0] == '/',
                i <= components@.len(),
                forall|j: int| 0 <= j < i ==> !is_faulty_component()(#[trigger] pieces[j]),
            decreases components@.len() - i,
        {
            match component_fault_of(&components[i]) {
                Some(e) => {
                    proof {
                        assert(is_first_where(pieces, is_faulty_component(), i as int));
                        lemma_first_where(pieces, is_faulty_component(), i as int);
                    }
                    return Err(e);
                },
                None => {},
            }
            i = i + 1;
        }
        proof {
            lemma_first_where(pieces, is_faulty_component(), 0);
        }
        Ok(FieldPath(value.to_owned()))
    }

    /// The path as written in the schema.
    pub fn as_str(&self) -> (path: &str)
        ensures
            path@ == self@,
    {
        self.0.as_str()
    }

    /// The components of the path, in order: what lies between its slashes.
    /// Descending them from a directory finds the field's file under it.
    pub fn components(&self) -> (components: Vec<String>)
        ensures
            components@.map_values(|c: String| c@) == path_components(self@),
    {
        let path = self.0.as_str();
        let chars = chars_of(path);
        let n = chars.len();
        let ghost p = path@;
        proof {
            use_type_invariant(self);
        }
        let mut done: Vec<String> = Vec::new();
        let mut start: usize = 1;
        let mut i: usize = 1;
        assert(p.subrange(1, 1) =~= Seq::<char>::empty());
        assert(done@.map_values(|c: String| c@).push(p.subrange(1, 1)) =~= split_on(
            p.subrange(1, 1),
            '/',
        ));
        while i < n
            invariant
                chars@ == p,
                p == path@,
                n == p.len(),
                1 <= start <= i <= n,
                done@.map_values(|c: String| c@).push(p.subrange(start as int, i as int))
                    == split_on(p.subrange(1, i as int), '/'),
            decreases n - i,
        {
            let ghost before = done@.map_values(|c: String| c@);
            let ghost q = p.subrange(1, i as int);
            assert(p.subrange(1, i + 1).drop_last() =~= q);
            assert(p.subrange(1, i + 1).last() == p[i as int]);
            if chars[i] == '/' {
                let from = start;
                let piece = path.substring_char(from, i).to_owned();
                done.push(piece);
                start = i + 1;
                assert(done@.map_values(|c: String| c@) =~= before.push(p.subrange(
                    from as int,
                    i as int,
                )));
                assert(p.subrange(start as int, i + 1) =~= Seq::<char>::empty());
            } else {
                assert(p.subrange(start as int, i + 1) =~= p.subrange(start as int, i as int).push(
                    p[i as int],
                ));
            }
            i = i + 1;
        }
        done.push(path.substring_char(start, n).to_owned());
        assert(p.subrange(1, n as int) =~= p.drop_first());
        done
    }
}

/// What is wrong with `component`, if anything.
fn component_fault_of(component: &Vec<char>) -> (fault: Option<PathError>)
    ensures
        fault == component_fault(component@),
{
    let n = component.len();
    if n == 0 {
        return Some(PathError::EmptyComponent);
    }
    if n == 1 && component[0] == '.' {
        assert(component@ =~= seq!['.']);
        return Some(PathError::RelativeComponent);
    }
    if n == 2 && component[0] == '.' && component[1] == '.' {
        assert(component@ =~= seq!['.', '.']);
        return Some(PathError::RelativeComponent);
    }
    assert(component@ != seq!['.'] && component@ != seq!['.', '.']) by {
        if n == 1 {
            assert(component@[0] != seq!['.'][0]);
        }
        if n == 2 {
            assert(component@[0] != seq!['.', '.'][0] || component@[1] != seq!['.', '.'][1]);
        }
    }
    let mut i: usize = 0;
    while i < n
        invariant
            n == component@.len(),
            i <= n,
            forall|j: int| 0 <= j < i ==> component@[j] != '\0',
        decreases n - i,
    {
        if component[i] == '\0' {
            assert(component@.contains(component@[i as int]));
            return Some(PathError::Nul);
        }
        i = i + 1;
    }
    None
}

/// Why a schema cannot be admitted.
#[derive(Debug)]
pub enum SchemaError {
    UnsupportedVersion(u64),
    Path { path: String, source: PathError },
    DuplicatePath(String),
    UnknownFieldType { path: String, declared_type: String },
}

impl View for SchemaError {
    type V = SchemaFault;

    open spec fn view(&self) -> SchemaFault {
        match self {
            SchemaError::UnsupportedVersion(v) => SchemaFault::UnsupportedVersion(*v),
            SchemaError::Path { path, source } => SchemaFault::Path { path: path@, source: *source },
            SchemaError::DuplicatePath(p) => SchemaFault::DuplicatePath(p@),
            SchemaError::UnknownFieldType { path, declared_type } => SchemaFault::UnknownFieldType {
                path: path@,
                declared_type: declared_type@,
            },
        }
    }
}

impl SchemaFault {
    /// How the error reads to the operator.
    pub open spec fn spec_message(self) -> Seq<char> {
        match self {
            SchemaFault::UnsupportedVersion(v) => "unsupported schema version: "@ + decimal(
                v as nat,
            ),
            SchemaFault::Path { path, source } => "field '"@ + path + "': "@
                + source.spec_message(),
            SchemaFault::DuplicatePath(p) => "duplicate field path: "@ + p,
            SchemaFault::UnknownFieldType { path, declared_type } => "field '"@ + path
                + "': unknown field type '"@ + declared_type + "'"@,
        }
    }
}

impl SchemaError {
    /// How the error reads to the operator.
    pub fn message(&self) -> (text: String)
        ensures
            text@ == self@.spec_message(),
    {
        match self {
            SchemaError::UnsupportedVersion(v) => {
                let mut text = String::from_str("unsupported schema version: ");
                push_decimal(&mut text, *v);
                text
            },
            SchemaError::Path { path, source } => {
                let mut text = String::from_str("field '");
                text.append(path.as_str());
                text.append("': ");
                text.append(source.message());
                text
            },
            SchemaError::DuplicatePath(p) => {
                let mut text = String::from_str("duplicate field path: ");
                text.append(p.as_str());
                text
            },
            SchemaError::UnknownFieldType { path, declared_type } => {
                let mut text = String::from_str("field '");
                text.append(path.as_str());
                text.append("': unknown field type '");
                text.append(declared_type.as_str());
                text.append("'");
                text
            },
        }
    }
}

/// Why a field path is refused.
#[derive(Debug, Clone, Copy, PartialEq, Eq)]
pub enum PathError {
    Empty,
    NotAbsolute,
    EmptyComponent,
    RelativeComponent,
    Nul,
}

impl PathError {
    /// How the error reads to the operator.
    pub open spec fn spec_message(self) -> Seq<char> {
        match self {
            PathError::Empty => "path is empty"@,
            PathError::NotAbsolute => "path must start with '/'"@,
            PathError::EmptyComponent => "path contains an empty component"@,
            PathError::RelativeComponent => "path contains a '.' or '..' component"@,
            PathError::Nul => "path contains a NUL byte"@,
        }
    }

    /// How the error reads to the operator.
    pub fn message(&self) -> (text: &'static str)
        ensures
            text@ == self.spec_message(),
    {
        match self {
            PathError::Empty => "path is empty",
            PathError::NotAbsolute => "path must start with '/'",
            PathError::EmptyComponent => "path contains an empty component",
            PathError::RelativeComponent => "path contains a '.' or '..' component",
            PathError::Nul => "path contains a NUL byte",
        }
    }
}

} // verus!
