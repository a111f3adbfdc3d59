//! The Cedar schema grammar's syntax tree and its conversion to schema modules.
pub mod grammar;

use vstd::prelude::*;
use crate::cedar_schema_grammar::grammar::{
    Schema, SchemaItem, NamespaceDecl, NamespaceInnerDecl, EntityDecl, ExtraName, EntityParents,
    TypePath, TypePathSegment, ActionDecl, ExtraActionName, AppliesTo, AppliesToDecl, TypeExpr,
    RecordType, FieldDecl, TypeAliasDecl,
};
use crate::schema::{
    ModuleDef, EntityDef, EntityKind, ActionDef, ActionAppliesTo, TypeRef, FieldDef, AbstractDef,
    SType, SField, SEntity, SAppliesTo, SAction, SAbstract, SModule, fields_view, field_view,
    entities_view, actions_view, abstracts_view, modules_view, lemma_fields_view_push, copy_strings,
    copy_fields, copy_applies_to,
};
use crate::text::{strip_quotes, unquoted, strings_view};

verus! {

// ----------------------------------------------------------------------------
// What each conversion yields
// ----------------------------------------------------------------------------

/// `head` followed by `::name` for each of the first `n` segments.
pub open spec fn path_upto(head: Seq<char>, segs: Seq<TypePathSegment>, n: nat) -> Seq<char>
    decreases n,
{
    if n == 0 || n > segs.len() {
        head
    } else {
        path_upto(head, segs, (n - 1) as nat) + "::"@ + segs[n - 1].name@
    }
}

/// The text of a type path, e.g. `Foo::Bar`.
pub open spec fn type_path_text(tp: TypePath) -> Seq<char> {
    path_upto(tp.head@, tp.tail@, tp.tail@.len())
}

/// The schema type a type expression stands for.
pub open spec fn type_ast(t: TypeExpr) -> SType
    decreases t, 0nat,
{
    match t {
        TypeExpr::SetType(_, _, b, _) => SType::SetOf(Box::new(type_ast(*b))),
        TypeExpr::Named(tp) => SType::Named(type_path_text(tp)),
        TypeExpr::Record(rec) => SType::Record(field_decls_ast(rec.fields@, rec.fields@.len())),
    }
}

/// The fields the first `n` field declarations stand for; names lose their quotes.
pub open spec fn field_decls_ast(fs: Seq<FieldDecl>, n: nat) -> Seq<SField>
    decreases fs, n,
{
    if n == 0 || n > fs.len() {
        Seq::empty()
    } else {
        field_decls_ast(fs, (n - 1) as nat).push(
            SField {
                name: unquoted(fs[n - 1].name@),
                ty: type_ast(fs[n - 1].ty),
                optional: fs[n - 1].optional is Some,
            },
        )
    }
}

pub open spec fn record_ast(rec: RecordType) -> Seq<SField> {
    field_decls_ast(rec.fields@, rec.fields@.len())
}

/// The entity type names a type stands for: its path when it is named.
pub open spec fn type_names_ast(t: TypeExpr) -> Seq<Seq<char>> {
    match t {
        TypeExpr::Named(tp) => seq![type_path_text(tp)],
        _ => Seq::empty(),
    }
}

/// The context fields a type stands for: its fields when it is a record.
pub open spec fn context_fields_ast(t: TypeExpr) -> Seq<SField> {
    match t {
        TypeExpr::Record(rec) => record_ast(rec),
        _ => Seq::empty(),
    }
}

/// What the first `n` `appliesTo` declarations say; a later one replaces an earlier one.
pub open spec fn applies_upto(ds: Seq<AppliesToDecl>, n: nat) -> SAppliesTo
    decreases n,
{
    if n == 0 || n > ds.len() {
        SAppliesTo { actors: Seq::empty(), resources: Seq::empty(), context: None }
    } else {
        let prev = applies_upto(ds, (n - 1) as nat);
        match ds[n - 1] {
            AppliesToDecl::Principal(_, _, ty, _) => SAppliesTo {
                actors: type_names_ast(ty),
                resources: prev.resources,
                context: prev.context,
            },
            AppliesToDecl::Resource(_, _, ty, _) => SAppliesTo {
                actors: prev.actors,
                resources: type_names_ast(ty),
                context: prev.context,
            },
            AppliesToDecl::Context(_, _, ty, _) => SAppliesTo {
                actors: prev.actors,
                resources: prev.resources,
                context: Some(context_fields_ast(ty)),
            },
        }
    }
}

pub open spec fn applies_to_ast(a: AppliesTo) -> SAppliesTo {
    applies_upto(a.decls@, a.decls@.len())
}

pub open spec fn entity_parents_ast(p: Option<EntityParents>) -> Seq<Seq<char>> {
    match p {
        None => Seq::empty(),
        Some(EntityParents::Single(_, n)) => seq![n@],
        Some(EntityParents::List(_, _, ts, _)) => ts@.map_values(|t: TypePath| type_path_text(t)),
    }
}

/// The names an entity declaration declares, in order.
pub open spec fn entity_names(e: EntityDecl) -> Seq<Seq<char>> {
    seq![e.name@] + e.extra_names@.map_values(|x: ExtraName| x.name@)
}

/// One entity per declared name, all with the declaration's parents and fields.
pub open spec fn entity_defs_ast(e: EntityDecl) -> Seq<SEntity> {
    let parents = entity_parents_ast(e.parents);
    let fields = match e.body {
        None => Seq::empty(),
        Some(rec) => record_ast(rec),
    };
    entity_names(e).map_values(
        |n: Seq<char>|
            SEntity {
                kind: EntityKind::Actor,
                name: n,
                parents: parents,
                traits: Seq::empty(),
                fields: fields,
            },
    )
}

/// The names an action declaration declares, without quotes.
pub open spec fn action_names(a: ActionDecl) -> Seq<Seq<char>> {
    seq![unquoted(a.name@)] + a.extra_names@.map_values(|x: ExtraActionName| unquoted(x.name@))
}

/// What an action declaration's `appliesTo` says, if it has one.
pub open spec fn action_applies_ast(a: ActionDecl) -> Option<SAppliesTo> {
    match a.applies_to {
        Some(at) => Some(applies_to_ast(at)),
        None => None,
    }
}

/// One action per declared name, all with the declaration's `appliesTo`.
pub open spec fn action_defs_ast(a: ActionDecl) -> Seq<SAction> {
    let applies = action_applies_ast(a);
    action_names(a).map_values(|n: Seq<char>| SAction { name: n, applies_to: applies })
}

pub open spec fn abstract_ast(t: TypeAliasDecl) -> SAbstract {
    SAbstract { name: t.name@, fields: context_fields_ast(t.ty) }
}

pub open spec fn empty_module(name: Option<Seq<char>>) -> SModule {
    SModule { name, entities: Seq::empty(), actions: Seq::empty(), abstracts: Seq::empty() }
}

/// The module the first `n` declarations of a namespace build.
pub open spec fn module_upto(name: Option<Seq<char>>, ds: Seq<NamespaceInnerDecl>, n: nat) -> SModule
    decreases n,
{
    if n == 0 || n > ds.len() {
        empty_module(name)
    } else {
        let m = module_upto(name, ds, (n - 1) as nat);
        match ds[n - 1] {
            NamespaceInnerDecl::Entity(e) => SModule {
                name: m.name,
                entities: m.entities + entity_defs_ast(e),
                actions: m.actions,
                abstracts: m.abstracts,
            },
            NamespaceInnerDecl::Action(a) => SModule {
                name: m.name,
                entities: m.entities,
                actions: m.actions + action_defs_ast(a),
                abstracts: m.abstracts,
            },
            NamespaceInnerDecl::TypeDecl(t) => SModule {
                name: m.name,
                entities: m.entities,
                actions: m.actions,
                abstracts: m.abstracts.push(abstract_ast(t)),
            },
        }
    }
}

pub open spec fn module_ast(ns: NamespaceDecl) -> SModule {
    module_upto(Some(ns.path@), ns.decls@, ns.decls@.len())
}

/// After the first `n` items: the module of top-level declarations, and the namespaces.
pub open spec fn schema_upto(items: Seq<SchemaItem>, n: nat) -> (SModule, Seq<SModule>)
    decreases n,
{
    if n == 0 || n > items.len() {
        (empty_module(None), Seq::empty())
    } else {
        let (d, ms) = schema_upto(items, (n - 1) as nat);
        match items[n - 1] {
            SchemaItem::Namespace(ns) => (d, ms.push(module_ast(ns))),
            SchemaItem::Entity(e) => (
                SModule {
                    name: d.name,
                    entities: d.entities + entity_defs_ast(e),
                    actions: d.actions,
                    abstracts: d.abstracts,
                },
                ms,
            ),
            SchemaItem::Action(a) => (
                SModule {
                    name: d.name,
                    entities: d.entities,
                    actions: d.actions + action_defs_ast(a),
                    abstracts: d.abstracts,
                },
                ms,
            ),
            SchemaItem::TypeDecl(t) => (
                SModule {
                    name: d.name,
                    entities: d.entities,
                    actions: d.actions,
                    abstracts: d.abstracts.push(abstract_ast(t)),
                },
                ms,
            ),
        }
    }
}

/// The modules of a schema: the namespaces in order, preceded by an unnamed
/// module of the top-level declarations when there are any.
pub open spec fn schema_ast(s: Schema) -> Seq<SModule> {
    let (d, ms) = schema_upto(s.items@, s.items@.len());
    if d.entities.len() > 0 || d.actions.len() > 0 || d.abstracts.len() > 0 {
        seq![d] + ms
    } else {
        ms
    }
}

// ----------------------------------------------------------------------------
// Conversions
// ----------------------------------------------------------------------------

impl TypePath {
    /// The full path string, e.g. `"Foo::Bar"`.
    pub fn full_path(&self) -> (r: String)
        ensures
            r@ == type_path_text(*self),
    {
        let mut path = self.head.clone();
        let mut i: usize = 0;
        while i < self.tail.len()
            invariant
                i <= self.tail.len(),
                path@ == path_upto(self.head@, self.tail@, i as nat),
            decreases self.tail.len() - i,
        {
            path.append("::");
            path.append(self.tail[i].name.as_str());
            i += 1;
        }
        path
    }
}

impl TypeExpr {
    pub fn to_type_ref(&self) -> (r: TypeRef)
        ensures
            r@ == type_ast(*self),
        decreases *self,
    {
        match self {
            TypeExpr::Named(tp) => TypeRef::Named(tp.full_path()),
            TypeExpr::SetType(_, _, inner, _) => TypeRef::SetOf(Box::new(inner.to_type_ref())),
            TypeExpr::Record(rec) => {
                proof {
                    assert(decreases_to!(*self => (*self)->Record_0));
                }
                TypeRef::Record(rec.to_field_defs())
            },
        }
    }

    pub fn to_type_names(&self) -> (r: Vec<String>)
        ensures
            strings_view(r@) == type_names_ast(*self),
    {
        let mut r: Vec<String> = Vec::new();
        match self {
            TypeExpr::Named(tp) => {
                r.push(tp.full_path());
                assert(strings_view(r@) =~= type_names_ast(*self));
            },
            _ => {
                assert(strings_view(r@) =~= type_names_ast(*self));
            },
        }
        r
    }

    pub fn to_context_fields(&self) -> (r: Vec<FieldDef>)
        ensures
            fields_view(r@) == context_fields_ast(*self),
    {
        match self {
            TypeExpr::Record(rec) => rec.to_field_defs(),
            _ => {
                let r: Vec<FieldDef> = Vec::new();
                assert(fields_view(r@) =~= Seq::<SField>::empty());
                r
            },
        }
    }
}

impl RecordType {
    pub fn to_field_defs(&self) -> (r: Vec<FieldDef>)
        ensures
            fields_view(r@) == record_ast(*self),
        decreases *self,
    {
        let mut r: Vec<FieldDef> = Vec::new();
        assert(fields_view(r@) =~= Seq::<SField>::empty());
        let mut i: usize = 0;
        while i < self.fields.len()
            invariant
                i <= self.fields.len(),
                fields_view(r@) == field_decls_ast(self.fields@, i as nat),
            decreases self.fields.len() - i,
        {
            proof {
                assert(decreases_to!(*self => self.fields));
                vstd::std_specs::vec::axiom_vec_index_decreases(self.fields, i as int);
                assert(decreases_to!(self.fields => self.fields[i as int]));
            }
            let f = self.fields[i].to_field_def();
            proof {
                lemma_fields_view_push(r@, f);
            }
            r.push(f);
            i += 1;
        }
        r
    }
}

impl FieldDecl {
    pub fn to_field_def(&self) -> (r: FieldDef)
        ensures
            field_view(r) == (SField {
                name: unquoted(self.name@),
                ty: type_ast(self.ty),
                optional: self.optional is Some,
            }),
        decreases *self,
    {
        proof {
            assert(decreases_to!(*self => self.ty));
        }
        FieldDef {
            name: strip_quotes(self.name.as_str()),
            ty: self.ty.to_type_ref(),
            optional: self.optional.is_some(),
        }
    }
}

impl TypeAliasDecl {
    pub fn to_abstract_def(&self) -> (r: AbstractDef)
        ensures
            r@ == abstract_ast(*self),
    {
        AbstractDef { name: self.name.clone(), fields: self.ty.to_context_fields() }
    }
}

impl AppliesTo {
    pub fn to_action_applies_to(&self) -> (r: ActionAppliesTo)
        ensures
            r@ == applies_to_ast(*self),
    {
        let mut actors: Vec<String> = Vec::new();
        let mut resources: Vec<String> = Vec::new();
        let mut context: Option<Vec<FieldDef>> = None;
        assert(strings_view(actors@) =~= Seq::<Seq<char>>::empty());
        assert(strings_view(resources@) =~= Seq::<Seq<char>>::empty());
        let mut i: usize = 0;
        while i < self.decls.len()
            invariant
                i <= self.decls.len(),
                (ActionAppliesTo { actors, resources, context })@ == applies_upto(
                    self.decls@,
                    i as nat,
                ),
            decreases self.decls.len() - i,
        {
            match &self.decls[i] {
                AppliesToDecl::Principal(_, _, ty, _) => {
                    actors = ty.to_type_names();
                },
                AppliesToDecl::Resource(_, _, ty, _) => {
                    resources = ty.to_type_names();
                },
                AppliesToDecl::Context(_, _, ty, _) => {
                    context = Some(ty.to_context_fields());
                },
            }
            i += 1;
        }
        ActionAppliesTo { actors, resources, context }
    }
}

impl ActionDecl {
    pub fn to_action_defs(&self) -> (r: Vec<ActionDef>)
        ensures
            actions_view(r@) == action_defs_ast(*self),
    {
        let applies_to = match &self.applies_to {
            Some(at) => Some(at.to_action_applies_to()),
            None => None,
        };
        let mut names: Vec<String> = Vec::new();
        names.push(strip_quotes(self.name.as_str()));
        let mut k: usize = 0;
        while k < self.extra_names.len()
            invariant
                k <= self.extra_names.len(),
                strings_view(names@) == seq![unquoted(self.name@)] + self.extra_names@.take(
                    k as int,
                ).map_values(|x: ExtraActionName| unquoted(x.name@)),
            decreases self.extra_names.len() - k,
        {
            let ghost before = names@;
            names.push(strip_quotes(self.extra_names[k].name.as_str()));
            assert(strings_view(names@) =~= strings_view(before).push(names@.last()@));
            assert(self.extra_names@.take(k + 1) =~= self.extra_names@.take(k as int).push(
                self.extra_names@[k as int],
            ));
            k += 1;
        }
        assert(self.extra_names@.take(k as int) =~= self.extra_names@);
        let ghost applies_view = action_applies_ast(*self);
        let mut r: Vec<ActionDef> = Vec::new();
        let mut i: usize = 0;
        while i < names.len()
            invariant
                i <= names.len(),
                strings_view(names@) == action_names(*self),
                match applies_to {
                    Some(a) => applies_view == Some(a@),
                    None => applies_view is None,
                },
                actions_view(r@) == strings_view(names@).take(i as int).map_values(
                    |n: Seq<char>| SAction { name: n, applies_to: applies_view },
                ),
            decreases names.len() - i,
        {
            let a = match &applies_to {
                Some(at) => Some(copy_applies_to(at)),
                None => None,
            };
            let ghost before = r@;
            r.push(ActionDef { name: names[i].clone(), applies_to: a });
            assert(actions_view(r@) =~= actions_view(before).push(r@.last()@));
            assert(strings_view(names@).take(i + 1) =~= strings_view(names@).take(i as int).push(
                names@[i as int]@,
            ));
            i += 1;
        }
        assert(strings_view(names@).take(i as int) =~= strings_view(names@));
        r
    }
}

impl EntityDecl {
    pub fn to_entity_defs(&self) -> (r: Vec<EntityDef>)
        ensures
            entities_view(r@) == entity_defs_ast(*self),
    {
        let parents: Vec<String> = match &self.parents {
            None => {
                let v: Vec<String> = Vec::new();
                assert(strings_view(v@) =~= entity_parents_ast(self.parents));
                v
            },
            Some(EntityParents::Single(_, name)) => {
                let mut v: Vec<String> = Vec::new();
                v.push(name.clone());
                assert(strings_view(v@) =~= entity_parents_ast(self.parents));
                v
            },
            Some(EntityParents::List(_, _, types, _)) => {
                let mut v: Vec<String> = Vec::new();
                let mut j: usize = 0;
                while j < types.len()
                    invariant
                        j <= types.len(),
                        strings_view(v@) == types@.take(j as int).map_values(
                            |t: TypePath| type_path_text(t),
                        ),
                    decreases types.len() - j,
                {
                    let ghost before = v@;
                    v.push(types[j].full_path());
                    assert(strings_view(v@) =~= strings_view(before).push(v@.last()@));
                    assert(types@.take(j + 1) =~= types@.take(j as int).push(types@[j as int]));
                    j += 1;
                }
                assert(types@.take(j as int) =~= types@);
                v
            },
        };
        let fields: Vec<FieldDef> = match &self.body {
            None => {
                let v: Vec<FieldDef> = Vec::new();
                assert(fields_view(v@) =~= Seq::<SField>::empty());
                v
            },
            Some(rec) => rec.to_field_defs(),
        };
        let mut names: Vec<String> = Vec::new();
        names.push(self.name.clone());
        let mut k: usize = 0;
        while k < self.extra_names.len()
            invariant
                k <= self.extra_names.len(),
                strings_view(names@) == seq![self.name@] + self.extra_names@.take(
                    k as int,
                ).map_values(|x: ExtraName| x.name@),
            decreases self.extra_names.len() - k,
        {
            let ghost before = names@;
            names.push(self.extra_names[k].name.clone());
            assert(strings_view(names@) =~= strings_view(before).push(names@.last()@));
            assert(self.extra_names@.take(k + 1) =~= self.extra_names@.take(k as int).push(
                self.extra_names@[k as int],
            ));
            k += 1;
        }
        assert(self.extra_names@.take(k as int) =~= self.extra_names@);
        let ghost pv = strings_view(parents@);
        let ghost fv = fields_view(fields@);
        let mut r: Vec<EntityDef> = Vec::new();
        let mut i: usize = 0;
        while i < names.len()
            invariant
                i <= names.len(),
                strings_view(names@) == entity_names(*self),
                pv == strings_view(parents@),
                fv == fields_view(fields@),
                pv == entity_parents_ast(self.parents),
                fv == (match self.body {
                    None => Seq::<SField>::empty(),
                    Some(rec) => record_ast(rec),
                }),
                entities_view(r@) == strings_view(names@).take(i as int).map_values(
                    |n: Seq<char>|
                        SEntity {
                            kind: EntityKind::Actor,
                            name: n,
                            parents: pv,
                            traits: Seq::empty(),
                            fields: fv,
                        },
                ),
            decreases names.len() - i,
        {
            let traits: Vec<String> = Vec::new();
            assert(strings_view(traits@) =~= Seq::<Seq<char>>::empty());
            let e = EntityDef {
                kind: EntityKind::Actor,
                name: names[i].clone(),
                parents: copy_strings(&parents),
                traits,
                fields: copy_fields(&fields),
            };
            let ghost before = r@;
            r.push(e);
            assert(entities_view(r@) =~= entities_view(before).push(r@.last()@));
            assert(strings_view(names@).take(i + 1) =~= strings_view(names@).take(i as int).push(
                names@[i as int]@,
            ));
            i += 1;
        }
        assert(strings_view(names@).take(i as int) =~= strings_view(names@));
        r
    }
}

impl NamespaceDecl {
    pub fn to_module_def(&self) -> (r: ModuleDef)
        ensures
            r@ == module_ast(*self),
    {
        let mut entities: Vec<EntityDef> = Vec::new();
        let mut actions: Vec<ActionDef> = Vec::new();
        let mut abstracts: Vec<AbstractDef> = Vec::new();
        let name = Some(self.path.clone());
        assert(entities_view(entities@) =~= Seq::<SEntity>::empty());
        assert(actions_view(actions@) =~= Seq::<SAction>::empty());
        assert(abstracts_view(abstracts@) =~= Seq::<SAbstract>::empty());
        let mut i: usize = 0;
        while i < self.decls.len()
            invariant
                i <= self.decls.len(),
                name == Some(self.path),
                (SModule {
                    name: Some(self.path@),
                    entities: entities_view(entities@),
                    actions: actions_view(actions@),
                    abstracts: abstracts_view(abstracts@),
                }) == module_upto(Some(self.path@), self.decls@, i as nat),
            decreases self.decls.len() - i,
        {
            match &self.decls[i] {
                NamespaceInnerDecl::Entity(e) => {
                    let mut defs = e.to_entity_defs();
                    let ghost before = entities@;
                    let ghost added = defs@;
                    entities.append(&mut defs);
                    assert(entities_view(entities@) =~= entities_view(before) + entities_view(added));
                },
                NamespaceInnerDecl::Action(a) => {
                    let mut defs = a.to_action_defs();
                    let ghost before = actions@;
                    let ghost added = defs@;
                    actions.append(&mut defs);
                    assert(actions_view(actions@) =~= actions_view(before) + actions_view(added));
                },
                NamespaceInnerDecl::TypeDecl(t) => {
                    let ghost before = abstracts@;
                    let d = t.to_abstract_def();
                    abstracts.push(d);
                    assert(abstracts_view(abstracts@) =~= abstracts_view(before).push(d@));
                },
            }
            i += 1;
        }
        ModuleDef { name, entities, actions, abstracts }
    }
}

impl Schema {
    /// The schema's modules: each namespace in order, preceded by an unnamed
    /// module of the top-level declarations when there are any.
    pub fn to_schema_ast(&self) -> (r: Vec<ModuleDef>)
        ensures
            modules_view(r@) == schema_ast(*self),
    {
        let mut modules: Vec<ModuleDef> = Vec::new();
        let mut entities: Vec<EntityDef> = Vec::new();
        let mut actions: Vec<ActionDef> = Vec::new();
        let mut abstracts: Vec<AbstractDef> = Vec::new();
        assert(entities_view(entities@) =~= Seq::<SEntity>::empty());
        assert(actions_view(actions@) =~= Seq::<SAction>::empty());
        assert(abstracts_view(abstracts@) =~= Seq::<SAbstract>::empty());
        assert(modules_view(modules@) =~= Seq::<SModule>::empty());
        let mut i: usize = 0;
        while i < self.items.len()
            invariant
                i <= self.items.len(),
                ((
                    SModule {
                        name: None,
                        entities: entities_view(entities@),
                        actions: actions_view(actions@),
                        abstracts: abstracts_view(abstracts@),
                    },
                    modules_view(modules@),
                )) == schema_upto(self.items@, i as nat),
            decreases self.items.len() - i,
        {
            match &self.items[i] {
                SchemaItem::Namespace(ns) => {
                    let m = ns.to_module_def();
                    let ghost before = modules@;
                    modules.push(m);
                    assert(modules_view(modules@) =~= modules_view(before).push(m@));
                },
                SchemaItem::Entity(e) => {
                    let mut defs = e.to_entity_defs();
                    let ghost before = entities@;
                    let ghost added = defs@;
                    entities.append(&mut defs);
                    assert(entities_view(entities@) =~= entities_view(before) + entities_view(added));
                },
                SchemaItem::Action(a) => {
                    let mut defs = a.to_action_defs();
                    let ghost before = actions@;
                    let ghost added = defs@;
                    actions.append(&mut defs);
                    assert(actions_view(actions@) =~= actions_view(before) + actions_view(added));
                },
                SchemaItem::TypeDecl(t) => {
                    let ghost before = abstracts@;
                    let d = t.to_abstract_def();
                    abstracts.push(d);
                    assert(abstracts_view(abstracts@) =~= abstracts_view(before).push(d@));
                },
            }
            i += 1;
        }
        if !entities.is_empty() || !actions.is_empty() || !abstracts.is_empty() {
            let default_module = ModuleDef { name: None, entities, actions, abstracts };
            let ghost before = modules@;
            modules.insert(0, default_module);
            assert(modules_view(modules@) =~= seq![default_module@] + modules_view(before));
        }
        modules
    }
}

} // verus!
