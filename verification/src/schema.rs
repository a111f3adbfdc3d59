//! Schema definitions: modules of entity, action and abstract type definitions.
use vstd::prelude::*;
use crate::text::strings_view;
use crate::ast::ExprAst;

verus! {

/// A schema module (namespace); `name` is `None` for top-level declarations.
#[derive(Debug)]
pub struct ModuleDef {
    pub name: Option<String>,
    pub entities: Vec<EntityDef>,
    pub actions: Vec<ActionDef>,
    pub abstracts: Vec<AbstractDef>,
}

/// Whether an entity acts (a principal) or is acted upon.
#[derive(Debug, Clone, Copy, PartialEq, Eq, Structural)]
pub enum EntityKind {
    Actor,
    Resource,
}

/// An entity type definition.
#[derive(Debug)]
pub struct EntityDef {
    pub kind: EntityKind,
    pub name: String,
    pub parents: Vec<String>,
    pub traits: Vec<String>,
    pub fields: Vec<FieldDef>,
}

/// An action definition.
#[derive(Debug)]
pub struct ActionDef {
    pub name: String,
    pub applies_to: Option<ActionAppliesTo>,
}

/// What an action applies to.
#[derive(Debug)]
pub struct ActionAppliesTo {
    pub actors: Vec<String>,
    pub resources: Vec<String>,
    pub context: Option<Vec<FieldDef>>,
}

/// A type in a schema.
#[derive(Debug)]
pub enum TypeRef {
    Named(String),
    SetOf(Box<TypeRef>),
    Record(Vec<FieldDef>),
    Union(Vec<TypeRef>),
}

/// A field of an entity or record.
#[derive(Debug)]
pub struct FieldDef {
    pub name: String,
    pub ty: TypeRef,
    pub optional: bool,
}

/// A static assertion `assert name<Types> if expr;`.
#[derive(Debug)]
pub struct AssertDef {
    pub name: String,
    pub type_params: Vec<String>,
    pub body: ExprAst,
}

/// An abstract type (a trait): a name and fields.
#[derive(Debug)]
pub struct AbstractDef {
    pub name: String,
    pub fields: Vec<FieldDef>,
}

// ----------------------------------------------------------------------------
// Contents
// ----------------------------------------------------------------------------

pub enum SType {
    Named(Seq<char>),
    SetOf(Box<SType>),
    Record(Seq<SField>),
    Union(Seq<SType>),
}

pub struct SField {
    pub name: Seq<char>,
    pub ty: SType,
    pub optional: bool,
}

pub struct SEntity {
    pub kind: EntityKind,
    pub name: Seq<char>,
    pub parents: Seq<Seq<char>>,
    pub traits: Seq<Seq<char>>,
    pub fields: Seq<SField>,
}

pub struct SAppliesTo {
    pub actors: Seq<Seq<char>>,
    pub resources: Seq<Seq<char>>,
    pub context: Option<Seq<SField>>,
}

pub struct SAction {
    pub name: Seq<char>,
    pub applies_to: Option<SAppliesTo>,
}

pub struct SAbstract {
    pub name: Seq<char>,
    pub fields: Seq<SField>,
}

/// The content of an assertion.
pub struct SAssert {
    pub name: Seq<char>,
    pub type_params: Seq<Seq<char>>,
    pub body: crate::ast::SExprAst,
}

impl View for AssertDef {
    type V = SAssert;

    open spec fn view(&self) -> SAssert {
        SAssert { name: self.name@, type_params: strings_view(self.type_params@), body: self.body@ }
    }
}

pub struct SModule {
    pub name: Option<Seq<char>>,
    pub entities: Seq<SEntity>,
    pub actions: Seq<SAction>,
    pub abstracts: Seq<SAbstract>,
}

pub open spec fn type_view(t: TypeRef) -> SType
    decreases t, 0nat,
{
    match t {
        TypeRef::Named(s) => SType::Named(s@),
        TypeRef::SetOf(b) => SType::SetOf(Box::new(type_view(*b))),
        TypeRef::Record(fs) => SType::Record(fields_view_n(fs@, fs@.len())),
        TypeRef::Union(ts) => SType::Union(types_view_n(ts@, ts@.len())),
    }
}

/// The contents of the first `n` fields.
pub open spec fn fields_view_n(fs: Seq<FieldDef>, n: nat) -> Seq<SField>
    decreases fs, n,
{
    if n == 0 || n > fs.len() {
        Seq::empty()
    } else {
        fields_view_n(fs, (n - 1) as nat).push(
            SField { name: fs[n - 1].name@, ty: type_view(fs[n - 1].ty), optional: fs[n - 1].optional },
        )
    }
}

/// The contents of the first `n` types.
pub open spec fn types_view_n(ts: Seq<TypeRef>, n: nat) -> Seq<SType>
    decreases ts, n,
{
    if n == 0 || n > ts.len() {
        Seq::empty()
    } else {
        types_view_n(ts, (n - 1) as nat).push(type_view(ts[n - 1]))
    }
}

pub open spec fn fields_view(fs: Seq<FieldDef>) -> Seq<SField> {
    fields_view_n(fs, fs.len())
}

pub open spec fn field_view(f: FieldDef) -> SField {
    SField { name: f.name@, ty: type_view(f.ty), optional: f.optional }
}

impl View for TypeRef {
    type V = SType;

    open spec fn view(&self) -> SType {
        type_view(*self)
    }
}

impl View for FieldDef {
    type V = SField;

    open spec fn view(&self) -> SField {
        field_view(*self)
    }
}

impl View for EntityDef {
    type V = SEntity;

    open spec fn view(&self) -> SEntity {
        SEntity {
            kind: self.kind,
            name: self.name@,
            parents: strings_view(self.parents@),
            traits: strings_view(self.traits@),
            fields: fields_view(self.fields@),
        }
    }
}

impl View for ActionAppliesTo {
    type V = SAppliesTo;

    open spec fn view(&self) -> SAppliesTo {
        SAppliesTo {
            actors: strings_view(self.actors@),
            resources: strings_view(self.resources@),
            context: match self.context {
                Some(fs) => Some(fields_view(fs@)),
                None => None,
            },
        }
    }
}

impl View for ActionDef {
    type V = SAction;

    open spec fn view(&self) -> SAction {
        SAction {
            name: self.name@,
            applies_to: match self.applies_to {
                Some(a) => Some(a@),
                None => None,
            },
        }
    }
}

impl View for AbstractDef {
    type V = SAbstract;

    open spec fn view(&self) -> SAbstract {
        SAbstract { name: self.name@, fields: fields_view(self.fields@) }
    }
}

pub open spec fn entities_view(v: Seq<EntityDef>) -> Seq<SEntity> {
    v.map_values(|e: EntityDef| e@)
}

pub open spec fn actions_view(v: Seq<ActionDef>) -> Seq<SAction> {
    v.map_values(|a: ActionDef| a@)
}

pub open spec fn abstracts_view(v: Seq<AbstractDef>) -> Seq<SAbstract> {
    v.map_values(|a: AbstractDef| a@)
}

impl View for ModuleDef {
    type V = SModule;

    open spec fn view(&self) -> SModule {
        SModule {
            name: match self.name {
                Some(n) => Some(n@),
                None => None,
            },
            entities: entities_view(self.entities@),
            actions: actions_view(self.actions@),
            abstracts: abstracts_view(self.abstracts@),
        }
    }
}

pub open spec fn modules_view(v: Seq<ModuleDef>) -> Seq<SModule> {
    v.map_values(|m: ModuleDef| m@)
}

pub proof fn lemma_fields_view_n(fs: Seq<FieldDef>, n: nat)
    requires
        n <= fs.len(),
    ensures
        fields_view_n(fs, n).len() == n,
        forall|i: int| 0 <= i < n ==> #[trigger] fields_view_n(fs, n)[i] == field_view(fs[i]),
    decreases n,
{
    if n > 0 {
        lemma_fields_view_n(fs, (n - 1) as nat);
    }
}

pub proof fn lemma_types_view_n(ts: Seq<TypeRef>, n: nat)
    requires
        n <= ts.len(),
    ensures
        types_view_n(ts, n).len() == n,
        forall|i: int| 0 <= i < n ==> #[trigger] types_view_n(ts, n)[i] == type_view(ts[i]),
    decreases n,
{
    if n > 0 {
        lemma_types_view_n(ts, (n - 1) as nat);
    }
}

/// `fields_view` of a list with one more field.
pub proof fn lemma_fields_view_push(fs: Seq<FieldDef>, f: FieldDef)
    ensures
        fields_view(fs.push(f)) == fields_view(fs).push(field_view(f)),
{
    lemma_fields_view_n(fs.push(f), fs.len() + 1);
    lemma_fields_view_n(fs, fs.len());
    assert(fields_view(fs.push(f)) =~= fields_view(fs).push(field_view(f)));
}

// ----------------------------------------------------------------------------
// Copies
// ----------------------------------------------------------------------------

/// A copy of a list of strings.
pub fn copy_strings(v: &Vec<String>) -> (r: Vec<String>)
    ensures
        strings_view(r@) == strings_view(v@),
{
    let mut r: Vec<String> = Vec::new();
    let mut i: usize = 0;
    while i < v.len()
        invariant
            i <= v.len(),
            strings_view(r@) == strings_view(v@.take(i as int)),
        decreases v.len() - i,
    {
        let ghost before = r@;
        r.push(v[i].clone());
        assert(strings_view(r@) =~= strings_view(before).push(v@[i as int]@));
        assert(v@.take(i + 1) =~= v@.take(i as int).push(v@[i as int]));
        i += 1;
    }
    assert(v@.take(i as int) =~= v@);
    r
}

/// A copy of a type.
pub fn copy_type(t: &TypeRef) -> (r: TypeRef)
    ensures
        r@ == t@,
    decreases *t, 1nat,
{
    match t {
        TypeRef::Named(s) => TypeRef::Named(s.clone()),
        TypeRef::SetOf(b) => TypeRef::SetOf(Box::new(copy_type(b))),
        TypeRef::Record(fs) => {
            proof {
                assert(decreases_to!(*t => (*t)->Record_0));
            }
            TypeRef::Record(copy_fields(fs))
        },
        TypeRef::Union(ts) => {
            proof {
                assert(decreases_to!(*t => (*t)->Union_0));
            }
            let mut r: Vec<TypeRef> = Vec::new();
            let mut i: usize = 0;
            proof {
                lemma_types_view_n(ts@, ts@.len());
            }
            while i < ts.len()
                invariant
                    i <= ts.len(),
                    r@.len() == i,
                    (*t) is Union && (*t)->Union_0 == *ts,
                    forall|j: int| 0 <= j < i ==> #[trigger] type_view(r@[j]) == type_view(ts@[j]),
                decreases ts.len() - i,
            {
                proof {
                    assert(decreases_to!(*t => (*t)->Union_0));
                    vstd::std_specs::vec::axiom_vec_index_decreases(*ts, i as int);
                    assert(decreases_to!(*ts => ts[i as int]));
                }
                let c = copy_type(&ts[i]);
                r.push(c);
                i += 1;
            }
            proof {
                lemma_types_view_n(r@, r@.len());
                assert(types_view_n(r@, r@.len()) =~= types_view_n(ts@, ts@.len()));
            }
            TypeRef::Union(r)
        },
    }
}

/// A copy of a list of fields.
pub fn copy_fields(fs: &Vec<FieldDef>) -> (r: Vec<FieldDef>)
    ensures
        fields_view(r@) == fields_view(fs@),
    decreases fs, 0nat,
{
    let mut r: Vec<FieldDef> = Vec::new();
    let mut i: usize = 0;
    proof {
        lemma_fields_view_n(fs@, fs@.len());
    }
    while i < fs.len()
        invariant
            i <= fs.len(),
            r@.len() == i,
            forall|j: int| 0 <= j < i ==> #[trigger] field_view(r@[j]) == field_view(fs@[j]),
        decreases fs.len() - i,
    {
        proof {
            vstd::std_specs::vec::axiom_vec_index_decreases(*fs, i as int);
            assert(decreases_to!(*fs => fs[i as int]));
            assert(decreases_to!(fs[i as int] => fs[i as int].ty));
        }
        let ty = copy_type(&fs[i].ty);
        r.push(FieldDef { name: fs[i].name.clone(), ty, optional: fs[i].optional });
        i += 1;
    }
    proof {
        lemma_fields_view_n(r@, r@.len());
        assert(fields_view(r@) =~= fields_view(fs@));
    }
    r
}

/// A copy of what an action applies to.
pub fn copy_applies_to(a: &ActionAppliesTo) -> (r: ActionAppliesTo)
    ensures
        r@ == a@,
{
    ActionAppliesTo {
        actors: copy_strings(&a.actors),
        resources: copy_strings(&a.resources),
        context: match &a.context {
            Some(fs) => Some(copy_fields(fs)),
            None => None,
        },
    }
}

} // verus!
