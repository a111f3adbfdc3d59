//! Parser for the Cedar schema language (`.cedarschema` files): each
//! `namespace` becomes a `ModuleDef`, declarations outside any namespace go
//! into an unnamed one. Annotations are read and dropped, as are the parents
//! of actions and the tags of entities. Every entity becomes an actor.
use vstd::prelude::*;
use crate::cedar_parser::SError;
use crate::cedar_schema_lexer::{
    SchemaTok, SchemaTokKind, SSchemaTok, schema_toks_view, schema_toks_wf, tokenize_schema,
    lemma_schema_wf_next,
};
use crate::cedar_schema_syntax::{
    serr, schema_tok_debug, at_word, expect_tok, expect_word, consume_ident, consume_name,
    skip_annotations, schema_path_tail, schema_path, ident_list_tail, ident_list, path_list,
    ent_or_typs, schema_ref, ref_list, ref_or_refs, type_expr, union_tail, base_type,
    record_fields, field_list, entities, entity_parents, entity_fields, entity_end, entity_named, names_tail, applies_items, applies_to, actions, action_rest, type_decl,
    SDecls, decl, add_decls, empty_smodule, namespace_body, namespace, add_top_level, schema_items,
    parse_schema_spec,
};
use crate::schema::{
    ModuleDef, EntityDef, EntityKind, ActionDef, ActionAppliesTo, TypeRef, FieldDef, AbstractDef,
    SType, SField, SEntity, SAction, SAppliesTo, SAbstract, SModule, fields_view, field_view,
    types_view_n, lemma_types_view_n, lemma_fields_view_push, lemma_fields_view_n, entities_view,
    actions_view, abstracts_view, modules_view, copy_strings, copy_fields, copy_applies_to,
};
use crate::text::{debug_str, i64_to_string, strings_view};
use crate::json::str_eq;

verus! {

/// An error found while parsing a Cedar schema, with the 1-based line and
/// column where it was found.
#[derive(Debug, Clone)]
pub struct CedarSchemaError {
    pub message: String,
    pub line: usize,
    pub column: usize,
}

impl View for CedarSchemaError {
    type V = SError;

    open spec fn view(&self) -> SError {
        SError { message: self.message@, line: self.line as nat, column: self.column as nat }
    }
}

impl CedarSchemaError {
    /// The message shown for the error: `Cedar schema error at line L:C: message`.
    pub fn to_string(&self) -> (s: String)
        ensures
            s@ == "Cedar schema error at line "@ + crate::text::decimal(self.line as int) + ":"@
                + crate::text::decimal(self.column as int) + ": "@ + self.message@,
    {
        let mut s = String::from_str("Cedar schema error at line ");
        let l = crate::text::usize_to_string(self.line);
        s.append(l.as_str());
        s.append(":");
        let c = crate::text::usize_to_string(self.column);
        s.append(c.as_str());
        s.append(": ");
        s.append(self.message.as_str());
        s
    }
}

/// A rule's result and the next position, against what the grammar says;
/// on success the parser has moved past `pos` and not past the last token.
pub open spec fn parsed<T: View>(
    r: Result<(T, usize), CedarSchemaError>,
    s: Result<(T::V, int), SError>,
    pos: usize,
    len: nat,
) -> bool {
    match r {
        Ok((v, p)) => s == Ok::<(T::V, int), SError>((v@, p as int)) && pos < p < len,
        Err(e) => s == Err::<(T::V, int), SError>(e@),
    }
}

/// As `parsed`, for a list of strings.
pub open spec fn parsed_strs(
    r: Result<(Vec<String>, usize), CedarSchemaError>,
    s: Result<(Seq<Seq<char>>, int), SError>,
    pos: usize,
    len: nat,
) -> bool {
    match r {
        Ok((v, p)) => s == Ok::<(Seq<Seq<char>>, int), SError>((strings_view(v@), p as int)) && pos
            < p < len,
        Err(e) => s == Err::<(Seq<Seq<char>>, int), SError>(e@),
    }
}

/// As `parsed`, for a list of fields.
pub open spec fn parsed_fields(
    r: Result<(Vec<FieldDef>, usize), CedarSchemaError>,
    s: Result<(Seq<SField>, int), SError>,
    pos: usize,
    len: nat,
) -> bool {
    match r {
        Ok((v, p)) => s == Ok::<(Seq<SField>, int), SError>((fields_view(v@), p as int)) && pos < p
            < len,
        Err(e) => s == Err::<(Seq<SField>, int), SError>(e@),
    }
}

/// The contents of an optional list of fields.
pub open spec fn opt_fields_view(o: Option<Vec<FieldDef>>) -> Option<Seq<SField>> {
    match o {
        Some(fs) => Some(fields_view(fs@)),
        None => None,
    }
}

/// What one declaration adds to a module.
enum Decls {
    Entities(Vec<EntityDef>),
    Actions(Vec<ActionDef>),
    TypeDecl(AbstractDef),
}

impl View for Decls {
    type V = SDecls;

    closed spec fn view(&self) -> SDecls {
        match self {
            Decls::Entities(es) => SDecls::Entities(entities_view(es@)),
            Decls::Actions(acts) => SDecls::Actions(actions_view(acts@)),
            Decls::TypeDecl(t) => SDecls::TypeDecl(t@),
        }
    }
}

fn empty_module(name: Option<String>) -> (m: ModuleDef)
    ensures
        m@ == empty_smodule(
            match name {
                Some(n) => Some(n@),
                None => None,
            },
        ),
{
    let m = ModuleDef { name, entities: Vec::new(), actions: Vec::new(), abstracts: Vec::new() };
    assert(entities_view(m.entities@) =~= Seq::<SEntity>::empty());
    assert(actions_view(m.actions@) =~= Seq::<SAction>::empty());
    assert(abstracts_view(m.abstracts@) =~= Seq::<SAbstract>::empty());
    m
}

/// The module with a declaration's definitions added at the end.
fn add_decls_to(m: ModuleDef, d: Decls) -> (r: ModuleDef)
    ensures
        r@ == add_decls(m@, d@),
{
    let ModuleDef { name, mut entities, mut actions, mut abstracts } = m;
    match d {
        Decls::Entities(mut es) => {
            let ghost a = entities@;
            let ghost b = es@;
            entities.append(&mut es);
            assert(entities_view(entities@) =~= entities_view(a) + entities_view(b));
        },
        Decls::Actions(mut acts) => {
            let ghost a = actions@;
            let ghost b = acts@;
            actions.append(&mut acts);
            assert(actions_view(actions@) =~= actions_view(a) + actions_view(b));
        },
        Decls::TypeDecl(t) => {
            let ghost a = abstracts@;
            abstracts.push(t);
            assert(abstracts_view(abstracts@) =~= abstracts_view(a).push(t@));
        },
    }
    ModuleDef { name, entities, actions, abstracts }
}

/// The name a token kind is printed with.
fn schema_kind_name_of(k: SchemaTokKind) -> (s: &'static str)
    ensures
        s@ == crate::cedar_schema_syntax::schema_kind_name(k),
{
    match k {
        SchemaTokKind::LBrace => "LBrace",
        SchemaTokKind::RBrace => "RBrace",
        SchemaTokKind::LBracket => "LBracket",
        SchemaTokKind::RBracket => "RBracket",
        SchemaTokKind::LParen => "LParen",
        SchemaTokKind::RParen => "RParen",
        SchemaTokKind::Comma => "Comma",
        SchemaTokKind::Semi => "Semi",
        SchemaTokKind::Colon => "Colon",
        SchemaTokKind::ColonColon => "ColonColon",
        SchemaTokKind::At => "At",
        SchemaTokKind::Eq => "Eq",
        SchemaTokKind::Assign => "Assign",
        SchemaTokKind::Lt => "Lt",
        SchemaTokKind::Gt => "Gt",
        SchemaTokKind::Pipe => "Pipe",
        SchemaTokKind::Question => "Question",
        SchemaTokKind::Ident => "Ident",
        SchemaTokKind::Str => "Str",
        SchemaTokKind::Int => "Int",
        SchemaTokKind::Eof => "Eof",
    }
}

/// A parser over the tokens of a schema; every rule takes the position of
/// its first token and gives back the position after its last.
struct SchemaParser {
    tokens: Vec<SchemaTok>,
}

impl SchemaParser {
    spec fn ts(&self) -> Seq<SSchemaTok> {
        schema_toks_view(self.tokens@)
    }

    spec fn wf(&self) -> bool {
        schema_toks_wf(self.ts())
    }

    fn err(&self, pos: usize, message: String) -> (e: CedarSchemaError)
        requires
            pos < self.tokens.len(),
        ensures
            e@ == serr(self.ts(), pos as int, message@),
    {
        CedarSchemaError { message, line: self.tokens[pos].line, column: self.tokens[pos].column }
    }

    /// How the token at `pos` is printed.
    fn tok_debug(&self, pos: usize) -> (s: String)
        requires
            pos < self.tokens.len(),
        ensures
            s@ == schema_tok_debug(self.ts()[pos as int]),
    {
        let t = &self.tokens[pos];
        if t.kind == SchemaTokKind::Ident || t.kind == SchemaTokKind::Str {
            let mut s = if t.kind == SchemaTokKind::Ident {
                String::from_str("Ident(")
            } else {
                String::from_str("Str(")
            };
            let d = debug_str(t.text.as_str());
            s.append(d.as_str());
            s.append(")");
            s
        } else if t.kind == SchemaTokKind::Int {
            let mut s = String::from_str("Int(");
            let d = i64_to_string(t.num);
            s.append(d.as_str());
            s.append(")");
            s
        } else {
            String::from_str(schema_kind_name_of(t.kind))
        }
    }

    /// An error `prefix` followed by how the token at `pos` is printed.
    fn err_got(&self, pos: usize, prefix: &str) -> (e: CedarSchemaError)
        requires
            pos < self.tokens.len(),
        ensures
            e@ == serr(self.ts(), pos as int, prefix@ + schema_tok_debug(self.ts()[pos as int])),
    {
        let mut m = String::from_str(prefix);
        let d = self.tok_debug(pos);
        m.append(d.as_str());
        self.err(pos, m)
    }

    fn at_word(&self, pos: usize, w: &str) -> (r: bool)
        requires
            pos < self.tokens.len(),
        ensures
            r == at_word(self.ts(), pos as int, w@),
    {
        self.tokens[pos].kind == SchemaTokKind::Ident && str_eq(self.tokens[pos].text.as_str(), w)
    }

    fn expect(&self, pos: usize, k: SchemaTokKind) -> (r: Result<usize, CedarSchemaError>)
        requires
            self.wf(),
            pos < self.tokens.len(),
            k != SchemaTokKind::Eof,
        ensures
            match r {
                Ok(p) => expect_tok(self.ts(), pos as int, k) == Ok::<int, SError>(p as int) && p
                    == pos + 1 && p < self.tokens.len(),
                Err(e) => expect_tok(self.ts(), pos as int, k) == Err::<int, SError>(e@),
            },
    {
        if self.tokens[pos].kind == k {
            proof {
                lemma_schema_wf_next(self.ts(), pos as int);
            }
            Ok(pos + 1)
        } else {
            let mut m = String::from_str("expected ");
            m.append(schema_kind_name_of(k));
            m.append(", got ");
            let d = self.tok_debug(pos);
            m.append(d.as_str());
            Err(self.err(pos, m))
        }
    }

    fn expect_word(&self, pos: usize, w: &str) -> (r: Result<usize, CedarSchemaError>)
        requires
            self.wf(),
            pos < self.tokens.len(),
        ensures
            match r {
                Ok(p) => expect_word(self.ts(), pos as int, w@) == Ok::<int, SError>(p as int) && p
                    == pos + 1 && p < self.tokens.len(),
                Err(e) => expect_word(self.ts(), pos as int, w@) == Err::<int, SError>(e@),
            },
    {
        if self.at_word(pos, w) {
            proof {
                lemma_schema_wf_next(self.ts(), pos as int);
            }
            Ok(pos + 1)
        } else {
            let mut m = String::from_str("expected '");
            m.append(w);
            m.append("', got ");
            let d = self.tok_debug(pos);
            m.append(d.as_str());
            Err(self.err(pos, m))
        }
    }

    fn consume_ident(&self, pos: usize) -> (r: Result<(String, usize), CedarSchemaError>)
        requires
            self.wf(),
            pos < self.tokens.len(),
        ensures
            parsed(r, consume_ident(self.ts(), pos as int), pos, self.tokens@.len()),
            r matches Ok((_, p)) ==> p == pos + 1,
    {
        if self.tokens[pos].kind == SchemaTokKind::Ident {
            proof {
                lemma_schema_wf_next(self.ts(), pos as int);
            }
            Ok((self.tokens[pos].text.clone(), pos + 1))
        } else {
            Err(self.err_got(pos, "expected identifier, got "))
        }
    }

    fn consume_name(&self, pos: usize) -> (r: Result<(String, usize), CedarSchemaError>)
        requires
            self.wf(),
            pos < self.tokens.len(),
        ensures
            parsed(r, consume_name(self.ts(), pos as int), pos, self.tokens@.len()),
            r matches Ok((_, p)) ==> p == pos + 1,
    {
        if self.tokens[pos].kind == SchemaTokKind::Ident || self.tokens[pos].kind
            == SchemaTokKind::Str {
            proof {
                lemma_schema_wf_next(self.ts(), pos as int);
            }
            Ok((self.tokens[pos].text.clone(), pos + 1))
        } else {
            Err(self.err_got(pos, "expected name (ident or string), got "))
        }
    }

    fn skip_annotations(&self, pos: usize) -> (r: Result<usize, CedarSchemaError>)
        requires
            self.wf(),
            pos < self.tokens.len(),
        ensures
            match r {
                Ok(p) => skip_annotations(self.ts(), pos as int) == Ok::<int, SError>(p as int)
                    && pos <= p < self.tokens.len(),
                Err(e) => skip_annotations(self.ts(), pos as int) == Err::<int, SError>(e@),
            },
    {
        let ghost ts = self.ts();
        let mut p = pos;
        loop
            invariant
                self.wf(),
                ts == self.ts(),
                pos <= p < self.tokens.len(),
                skip_annotations(ts, pos as int) == skip_annotations(ts, p as int),
            decreases self.tokens@.len() - p,
        {
            if self.tokens[p].kind != SchemaTokKind::At {
                return Ok(p);
            }
            proof {
                lemma_schema_wf_next(ts, p as int);
            }
            let (_, p1) = match self.consume_ident(p + 1) {
                Ok(x) => x,
                Err(e) => return Err(e),
            };
            if self.tokens[p1].kind == SchemaTokKind::LParen {
                proof {
                    lemma_schema_wf_next(ts, p1 as int);
                }
                let p2 = if self.tokens[p1 + 1].kind == SchemaTokKind::Str {
                    proof {
                        lemma_schema_wf_next(ts, p1 + 1);
                    }
                    p1 + 2
                } else {
                    p1 + 1
                };
                p = match self.expect(p2, SchemaTokKind::RParen) {
                    Ok(x) => x,
                    Err(e) => return Err(e),
                };
            } else {
                p = p1;
            }
        }
    }

    /// A path: identifiers joined by `::`.
    fn parse_path(&self, pos: usize) -> (r: Result<(String, usize), CedarSchemaError>)
        requires
            self.wf(),
            pos < self.tokens.len(),
        ensures
            parsed(r, schema_path(self.ts(), pos as int), pos, self.tokens@.len()),
    {
        let ghost ts = self.ts();
        let (mut path, p1) = match self.consume_ident(pos) {
            Ok(x) => x,
            Err(e) => return Err(e),
        };
        let mut p = p1;
        loop
            invariant
                self.wf(),
                ts == self.ts(),
                pos < p < self.tokens.len(),
                schema_path(ts, pos as int) == schema_path_tail(ts, p as int, path@),
            decreases self.tokens@.len() - p,
        {
            if self.tokens[p].kind != SchemaTokKind::ColonColon {
                return Ok((path, p));
            }
            proof {
                lemma_schema_wf_next(ts, p as int);
            }
            let (seg, p2) = match self.consume_ident(p + 1) {
                Ok(x) => x,
                Err(e) => return Err(e),
            };
            path.append("::");
            path.append(seg.as_str());
            p = p2;
        }
    }

    /// One or more identifiers separated by commas.
    fn parse_ident_list(&self, pos: usize) -> (r: Result<(Vec<String>, usize), CedarSchemaError>)
        requires
            self.wf(),
            pos < self.tokens.len(),
        ensures
            parsed_strs(r, ident_list(self.ts(), pos as int), pos, self.tokens@.len()),
    {
        let ghost ts = self.ts();
        let (first, p1) = match self.consume_ident(pos) {
            Ok(x) => x,
            Err(e) => return Err(e),
        };
        let mut names: Vec<String> = Vec::new();
        names.push(first);
        assert(strings_view(names@) =~= seq![names@[0]@]);
        let mut p = p1;
        loop
            invariant
                self.wf(),
                ts == self.ts(),
                pos < p < self.tokens.len(),
                ident_list(ts, pos as int) == ident_list_tail(ts, p as int, strings_view(names@)),
            decreases self.tokens@.len() - p,
        {
            if self.tokens[p].kind != SchemaTokKind::Comma {
                return Ok((names, p));
            }
            proof {
                lemma_schema_wf_next(ts, p as int);
            }
            if self.tokens[p + 1].kind != SchemaTokKind::Ident {
                return Ok((names, p));
            }
            proof {
                lemma_schema_wf_next(ts, p + 1);
            }
            let ghost before = names@;
            names.push(self.tokens[p + 1].text.clone());
            assert(strings_view(names@) =~= strings_view(before).push(ts[p + 1].text));
            p = p + 2;
        }
    }

    /// One path, or a bracketed list of paths.
    fn parse_ent_or_typs(&self, pos: usize) -> (r: Result<(Vec<String>, usize), CedarSchemaError>)
        requires
            self.wf(),
            pos < self.tokens.len(),
        ensures
            parsed_strs(r, ent_or_typs(self.ts(), pos as int), pos, self.tokens@.len()),
    {
        let ghost ts = self.ts();
        let mut types: Vec<String> = Vec::new();
        if self.tokens[pos].kind != SchemaTokKind::LBracket {
            let (t, p1) = match self.parse_path(pos) {
                Ok(x) => x,
                Err(e) => return Err(e),
            };
            types.push(t);
            assert(strings_view(types@) =~= seq![types@[0]@]);
            return Ok((types, p1));
        }
        proof {
            lemma_schema_wf_next(ts, pos as int);
        }
        assert(strings_view(types@) =~= Seq::<Seq<char>>::empty());
        let mut p = pos + 1;
        loop
            invariant
                self.wf(),
                ts == self.ts(),
                pos < p < self.tokens.len(),
                ent_or_typs(ts, pos as int) == path_list(ts, p as int, strings_view(types@)),
            decreases self.tokens@.len() - p,
        {
            if self.tokens[p].kind == SchemaTokKind::RBracket {
                proof {
                    lemma_schema_wf_next(ts, p as int);
                }
                return Ok((types, p + 1));
            }
            let (t, p1) = match self.parse_path(p) {
                Ok(x) => x,
                Err(e) => return Err(e),
            };
            let ghost before = types@;
            types.push(t);
            assert(strings_view(types@) =~= strings_view(before).push(types@.last()@));
            if self.tokens[p1].kind == SchemaTokKind::Comma {
                proof {
                    lemma_schema_wf_next(ts, p1 as int);
                }
                p = p1 + 1;
            } else {
                p = p1;
            }
        }
    }

    /// A reference to an action: a string, or a path optionally followed by
    /// `::` and a string.
    fn parse_ref(&self, pos: usize) -> (r: Result<(String, usize), CedarSchemaError>)
        requires
            self.wf(),
            pos < self.tokens.len(),
        ensures
            parsed(r, schema_ref(self.ts(), pos as int), pos, self.tokens@.len()),
    {
        let ghost ts = self.ts();
        if self.tokens[pos].kind == SchemaTokKind::Str {
            proof {
                lemma_schema_wf_next(ts, pos as int);
            }
            return Ok((self.tokens[pos].text.clone(), pos + 1));
        }
        if self.tokens[pos].kind != SchemaTokKind::Ident {
            return Err(self.err_got(pos, "expected ref (ident or string), got "));
        }
        let (path, p1) = match self.parse_path(pos) {
            Ok(x) => x,
            Err(e) => return Err(e),
        };
        if self.tokens[p1].kind == SchemaTokKind::ColonColon {
            proof {
                lemma_schema_wf_next(ts, p1 as int);
            }
            if self.tokens[p1 + 1].kind == SchemaTokKind::Str {
                proof {
                    lemma_schema_wf_next(ts, p1 + 1);
                }
                return Ok((path, p1 + 2));
            }
            return Ok((path, p1 + 1));
        }
        Ok((path, p1))
    }

    /// One reference, or a bracketed list of them.
    fn parse_ref_or_refs(&self, pos: usize) -> (r: Result<(Vec<String>, usize), CedarSchemaError>)
        requires
            self.wf(),
            pos < self.tokens.len(),
        ensures
            parsed_strs(r, ref_or_refs(self.ts(), pos as int), pos, self.tokens@.len()),
    {
        let ghost ts = self.ts();
        let mut refs: Vec<String> = Vec::new();
        if self.tokens[pos].kind != SchemaTokKind::LBracket {
            let (t, p1) = match self.parse_ref(pos) {
                Ok(x) => x,
                Err(e) => return Err(e),
            };
            refs.push(t);
            assert(strings_view(refs@) =~= seq![refs@[0]@]);
            return Ok((refs, p1));
        }
        proof {
            lemma_schema_wf_next(ts, pos as int);
        }
        assert(strings_view(refs@) =~= Seq::<Seq<char>>::empty());
        let mut p = pos + 1;
        loop
            invariant
                self.wf(),
                ts == self.ts(),
                pos < p < self.tokens.len(),
                ref_or_refs(ts, pos as int) == ref_list(ts, p as int, strings_view(refs@)),
            decreases self.tokens@.len() - p,
        {
            if self.tokens[p].kind == SchemaTokKind::RBracket {
                proof {
                    lemma_schema_wf_next(ts, p as int);
                }
                return Ok((refs, p + 1));
            }
            let (t, p1) = match self.parse_ref(p) {
                Ok(x) => x,
                Err(e) => return Err(e),
            };
            let ghost before = refs@;
            refs.push(t);
            assert(strings_view(refs@) =~= strings_view(before).push(refs@.last()@));
            if self.tokens[p1].kind == SchemaTokKind::Comma {
                proof {
                    lemma_schema_wf_next(ts, p1 as int);
                }
                p = p1 + 1;
            } else {
                p = p1;
            }
        }
    }
}


} // verus!

verus! {

impl SchemaParser {
    /// A type: a base type, or several joined by `|` (a union).
    fn parse_type(&self, pos: usize) -> (r: Result<(TypeRef, usize), CedarSchemaError>)
        requires
            self.wf(),
            pos < self.tokens.len(),
        ensures
            parsed(r, type_expr(self.ts(), pos as int), pos, self.tokens@.len()),
        decreases self.tokens@.len() - pos, 3nat,
    {
        let ghost ts = self.ts();
        let (b, p1) = match self.parse_base_type(pos) {
            Ok(x) => x,
            Err(e) => return Err(e),
        };
        if self.tokens[p1].kind != SchemaTokKind::Pipe {
            return Ok((b, p1));
        }
        let mut variants: Vec<TypeRef> = Vec::new();
        variants.push(b);
        proof {
            lemma_types_view_n(variants@, 1);
            assert(types_view_n(variants@, variants@.len()) =~= seq![variants@[0]@]);
        }
        let mut p = p1;
        loop
            invariant
                self.wf(),
                ts == self.ts(),
                pos < p < self.tokens.len(),
                type_expr(ts, pos as int) == union_tail(
                    ts,
                    p as int,
                    types_view_n(variants@, variants@.len()),
                ),
            decreases self.tokens@.len() - p,
        {
            if self.tokens[p].kind != SchemaTokKind::Pipe {
                return Ok((TypeRef::Union(variants), p));
            }
            proof {
                lemma_schema_wf_next(ts, p as int);
            }
            let (t, p2) = match self.parse_base_type(p + 1) {
                Ok(x) => x,
                Err(e) => return Err(e),
            };
            let ghost before = variants@;
            variants.push(t);
            proof {
                lemma_types_view_n(before, before.len());
                lemma_types_view_n(variants@, variants@.len());
                assert(types_view_n(variants@, variants@.len()) =~= types_view_n(
                    before,
                    before.len(),
                ).push(variants@.last()@));
            }
            p = p2;
        }
    }

    /// A record type, `Set<T>`, or a named type.
    fn parse_base_type(&self, pos: usize) -> (r: Result<(TypeRef, usize), CedarSchemaError>)
        requires
            self.wf(),
            pos < self.tokens.len(),
        ensures
            parsed(r, base_type(self.ts(), pos as int), pos, self.tokens@.len()),
        decreases self.tokens@.len() - pos, 2nat,
    {
        let ghost ts = self.ts();
        if self.tokens[pos].kind == SchemaTokKind::LBrace {
            let (fs, p1) = match self.parse_record_fields(pos) {
                Ok(x) => x,
                Err(e) => return Err(e),
            };
            return Ok((TypeRef::Record(fs), p1));
        }
        if self.at_word(pos, "Set") {
            proof {
                lemma_schema_wf_next(ts, pos as int);
            }
            let p1 = match self.expect(pos + 1, SchemaTokKind::Lt) {
                Ok(x) => x,
                Err(e) => return Err(e),
            };
            let (t, p2) = match self.parse_type(p1) {
                Ok(x) => x,
                Err(e) => return Err(e),
            };
            let p3 = match self.expect(p2, SchemaTokKind::Gt) {
                Ok(x) => x,
                Err(e) => return Err(e),
            };
            return Ok((TypeRef::SetOf(Box::new(t)), p3));
        }
        if self.tokens[pos].kind == SchemaTokKind::Ident {
            let (name, p1) = match self.parse_path(pos) {
                Ok(x) => x,
                Err(e) => return Err(e),
            };
            return Ok((TypeRef::Named(name), p1));
        }
        Err(self.err_got(pos, "expected type, got "))
    }

    /// The fields of a record `{ name: Type, name?: Type, ... }`.
    fn parse_record_fields(&self, pos: usize) -> (r: Result<
        (Vec<FieldDef>, usize),
        CedarSchemaError,
    >)
        requires
            self.wf(),
            pos < self.tokens.len(),
        ensures
            parsed_fields(r, record_fields(self.ts(), pos as int), pos, self.tokens@.len()),
        decreases self.tokens@.len() - pos, 1nat,
    {
        let ghost ts = self.ts();
        let p0 = match self.expect(pos, SchemaTokKind::LBrace) {
            Ok(x) => x,
            Err(e) => return Err(e),
        };
        let mut fields: Vec<FieldDef> = Vec::new();
        assert(fields_view(fields@) =~= Seq::<SField>::empty());
        let mut p = p0;
        loop
            invariant
                self.wf(),
                ts == self.ts(),
                pos < p < self.tokens.len(),
                record_fields(ts, pos as int) == field_list(ts, p as int, fields_view(fields@)),
            decreases self.tokens@.len() - p,
        {
            if self.tokens[p].kind == SchemaTokKind::RBrace {
                proof {
                    lemma_schema_wf_next(ts, p as int);
                }
                return Ok((fields, p + 1));
            }
            let p1 = match self.skip_annotations(p) {
                Ok(x) => x,
                Err(e) => return Err(e),
            };
            if self.tokens[p1].kind == SchemaTokKind::RBrace {
                proof {
                    lemma_schema_wf_next(ts, p1 as int);
                }
                return Ok((fields, p1 + 1));
            }
            let (name, p2) = match self.consume_name(p1) {
                Ok(x) => x,
                Err(e) => return Err(e),
            };
            let optional = self.tokens[p2].kind == SchemaTokKind::Question;
            let p3 = if optional {
                proof {
                    lemma_schema_wf_next(ts, p2 as int);
                }
                p2 + 1
            } else {
                p2
            };
            let p4 = match self.expect(p3, SchemaTokKind::Colon) {
                Ok(x) => x,
                Err(e) => return Err(e),
            };
            let (ty, p5) = match self.parse_type(p4) {
                Ok(x) => x,
                Err(e) => return Err(e),
            };
            let f = FieldDef { name, ty, optional };
            proof {
                lemma_fields_view_push(fields@, f);
            }
            fields.push(f);
            if self.tokens[p5].kind == SchemaTokKind::Comma {
                proof {
                    lemma_schema_wf_next(ts, p5 as int);
                }
                p = p5 + 1;
            } else {
                p = p5;
            }
        }
    }
}

} // verus!

verus! {

/// The contents of an optional `appliesTo` block.
pub open spec fn opt_applies_view(o: Option<ActionAppliesTo>) -> Option<SAppliesTo> {
    match o {
        Some(a) => Some(a@),
        None => None,
    }
}

impl SchemaParser {
    /// `entity A, B in [P] { fields } tags T;`: one entity per name.
    fn parse_entities(&self, pos: usize) -> (r: Result<(Vec<EntityDef>, usize), CedarSchemaError>)
        requires
            self.wf(),
            pos < self.tokens.len(),
        ensures
            match r {
                Ok((v, p)) => entities(self.ts(), pos as int) == Ok::<(Seq<SEntity>, int), SError>(
                    (entities_view(v@), p as int),
                ) && pos < p < self.tokens.len(),
                Err(e) => entities(self.ts(), pos as int) == Err::<(Seq<SEntity>, int), SError>(e@),
            },
    {
        let ghost ts = self.ts();
        let p1 = match self.expect_word(pos, "entity") {
            Ok(x) => x,
            Err(e) => return Err(e),
        };
        let (names, p2) = match self.parse_ident_list(p1) {
            Ok(x) => x,
            Err(e) => return Err(e),
        };
        assert(entities(ts, pos as int) == entity_parents(ts, strings_view(names@), p2 as int));
        let (parents, p3) = if self.at_word(p2, "in") {
            proof {
                lemma_schema_wf_next(ts, p2 as int);
            }
            match self.parse_ent_or_typs(p2 + 1) {
                Ok(x) => x,
                Err(e) => return Err(e),
            }
        } else {
            let v: Vec<String> = Vec::new();
            assert(strings_view(v@) =~= Seq::<Seq<char>>::empty());
            (v, p2)
        };
        assert(entities(ts, pos as int) == entity_fields(
            ts,
            strings_view(names@),
            strings_view(parents@),
            p3 as int,
        ));
        let (fields, p4) = if self.tokens[p3].kind == SchemaTokKind::Assign {
            proof {
                lemma_schema_wf_next(ts, p3 as int);
            }
            match self.parse_record_fields(p3 + 1) {
                Ok(x) => x,
                Err(e) => return Err(e),
            }
        } else if self.tokens[p3].kind == SchemaTokKind::LBrace {
            match self.parse_record_fields(p3) {
                Ok(x) => x,
                Err(e) => return Err(e),
            }
        } else {
            let v: Vec<FieldDef> = Vec::new();
            assert(fields_view(v@) =~= Seq::<SField>::empty());
            (v, p3)
        };
        assert(entities(ts, pos as int) == entity_end(
            ts,
            strings_view(names@),
            strings_view(parents@),
            fields_view(fields@),
            p4 as int,
        ));
        let p5 = if self.at_word(p4, "tags") {
            proof {
                lemma_schema_wf_next(ts, p4 as int);
            }
            match self.parse_type(p4 + 1) {
                Ok((_, p)) => p,
                Err(e) => return Err(e),
            }
        } else {
            p4
        };
        let p6 = match self.expect(p5, SchemaTokKind::Semi) {
            Ok(x) => x,
            Err(e) => return Err(e),
        };
        let out = make_entities(&names, &parents, &fields);
        Ok((out, p6))
    }

    /// The `{ principal: ..., resource: ..., context: ... }` block of an action.
    fn parse_applies_to(&self, pos: usize) -> (r: Result<
        (ActionAppliesTo, usize),
        CedarSchemaError,
    >)
        requires
            self.wf(),
            pos < self.tokens.len(),
        ensures
            parsed(r, applies_to(self.ts(), pos as int), pos, self.tokens@.len()),
    {
        let ghost ts = self.ts();
        let p0 = match self.expect(pos, SchemaTokKind::LBrace) {
            Ok(x) => x,
            Err(e) => return Err(e),
        };
        let mut actors: Vec<String> = Vec::new();
        let mut resources: Vec<String> = Vec::new();
        let mut context: Option<Vec<FieldDef>> = None;
        assert(strings_view(actors@) =~= Seq::<Seq<char>>::empty());
        assert(strings_view(resources@) =~= Seq::<Seq<char>>::empty());
        let mut p = p0;
        loop
            invariant
                self.wf(),
                ts == self.ts(),
                pos < p < self.tokens.len(),
                applies_to(ts, pos as int) == applies_items(
                    ts,
                    p as int,
                    strings_view(actors@),
                    strings_view(resources@),
                    opt_fields_view(context),
                ),
            decreases self.tokens@.len() - p,
        {
            if self.tokens[p].kind == SchemaTokKind::RBrace {
                proof {
                    lemma_schema_wf_next(ts, p as int);
                }
                return Ok((ActionAppliesTo { actors, resources, context }, p + 1));
            }
            let is_principal = self.at_word(p, "principal");
            let q2;
            if is_principal || self.at_word(p, "resource") {
                proof {
                    lemma_schema_wf_next(ts, p as int);
                }
                let p1 = match self.expect(p + 1, SchemaTokKind::Colon) {
                    Ok(x) => x,
                    Err(e) => return Err(e),
                };
                let (list, p2) = match self.parse_ent_or_typs(p1) {
                    Ok(x) => x,
                    Err(e) => return Err(e),
                };
                if is_principal {
                    actors = list;
                } else {
                    resources = list;
                }
                q2 = p2;
            } else if self.at_word(p, "context") {
                proof {
                    lemma_schema_wf_next(ts, p as int);
                }
                let p1 = match self.expect(p + 1, SchemaTokKind::Colon) {
                    Ok(x) => x,
                    Err(e) => return Err(e),
                };
                if self.tokens[p1].kind == SchemaTokKind::LBrace {
                    let (fs, p2) = match self.parse_record_fields(p1) {
                        Ok(x) => x,
                        Err(e) => return Err(e),
                    };
                    context = Some(fs);
                    q2 = p2;
                } else {
                    let (_, p2) = match self.parse_type(p1) {
                        Ok(x) => x,
                        Err(e) => return Err(e),
                    };
                    q2 = p2;
                }
            } else {
                return Err(
                    self.err_got(
                        p,
                        "expected 'principal', 'resource', or 'context' in appliesTo, got ",
                    ),
                );
            }
            if self.tokens[q2].kind == SchemaTokKind::Comma {
                proof {
                    lemma_schema_wf_next(ts, q2 as int);
                }
                p = q2 + 1;
            } else {
                p = q2;
            }
        }
    }

    /// `action "a", b in [parents] appliesTo { ... };`: one action per name.
    fn parse_actions(&self, pos: usize) -> (r: Result<(Vec<ActionDef>, usize), CedarSchemaError>)
        requires
            self.wf(),
            pos < self.tokens.len(),
        ensures
            match r {
                Ok((v, p)) => actions(self.ts(), pos as int) == Ok::<(Seq<SAction>, int), SError>(
                    (actions_view(v@), p as int),
                ) && pos < p < self.tokens.len(),
                Err(e) => actions(self.ts(), pos as int) == Err::<(Seq<SAction>, int), SError>(e@),
            },
    {
        let ghost ts = self.ts();
        let p1 = match self.expect_word(pos, "action") {
            Ok(x) => x,
            Err(e) => return Err(e),
        };
        let (first, p2) = match self.consume_name(p1) {
            Ok(x) => x,
            Err(e) => return Err(e),
        };
        let ghost first_v = first@;
        let mut names: Vec<String> = Vec::new();
        names.push(first);
        assert(strings_view(names@) =~= seq![first_v]);
        let mut p = p2;
        while self.tokens[p].kind == SchemaTokKind::Comma
            invariant
                self.wf(),
                ts == self.ts(),
                pos < p < self.tokens.len(),
                expect_word(ts, pos as int, "action"@) == Ok::<int, SError>(p1 as int),
                consume_name(ts, p1 as int) == Ok::<(Seq<char>, int), SError>((first_v, p2 as int)),
                names_tail(ts, p2 as int, seq![first_v]) == names_tail(
                    ts,
                    p as int,
                    strings_view(names@),
                ),
            decreases self.tokens@.len() - p,
        {
            proof {
                lemma_schema_wf_next(ts, p as int);
            }
            let (n, p3) = match self.consume_name(p + 1) {
                Ok(x) => x,
                Err(e) => return Err(e),
            };
            let ghost before = names@;
            names.push(n);
            assert(strings_view(names@) =~= strings_view(before).push(names@.last()@));
            p = p3;
        }
        assert(actions(ts, pos as int) == action_rest(ts, strings_view(names@), p as int));
        let p4 = if self.at_word(p, "in") {
            proof {
                lemma_schema_wf_next(ts, p as int);
            }
            match self.parse_ref_or_refs(p + 1) {
                Ok((_, q)) => q,
                Err(e) => return Err(e),
            }
        } else {
            p
        };
        let applies = if self.at_word(p4, "appliesTo") {
            proof {
                lemma_schema_wf_next(ts, p4 as int);
            }
            match self.parse_applies_to(p4 + 1) {
                Ok((a, q)) => (Some(a), q),
                Err(e) => return Err(e),
            }
        } else {
            (None, p4)
        };
        let (applies, p5) = applies;
        let p6 = match self.expect(p5, SchemaTokKind::Semi) {
            Ok(x) => x,
            Err(e) => return Err(e),
        };
        let out = make_actions(&names, &applies);
        Ok((out, p6))
    }
}

} // verus!

verus! {

/// One entity per name, each with a copy of the parents and fields.
fn make_entities(names: &Vec<String>, parents: &Vec<String>, fields: &Vec<FieldDef>) -> (out: Vec<
    EntityDef,
>)
    ensures
        entities_view(out@) == strings_view(names@).map_values(
            |n: Seq<char>| entity_named(n, strings_view(parents@), fields_view(fields@)),
        ),
{
    let ghost pv = strings_view(parents@);
    let ghost fv = fields_view(fields@);
    let mut out: Vec<EntityDef> = Vec::new();
    let mut i: usize = 0;
    while i < names.len()
        invariant
            i <= names.len(),
            out@.len() == i,
            pv == strings_view(parents@),
            fv == fields_view(fields@),
            forall|j: int| 0 <= j < i ==> #[trigger] out@[j]@ == entity_named(names@[j]@, pv, fv),
        decreases names.len() - i,
    {
        let traits: Vec<String> = Vec::new();
        assert(strings_view(traits@) =~= Seq::<Seq<char>>::empty());
        out.push(
            EntityDef {
                kind: EntityKind::Actor,
                name: names[i].clone(),
                parents: copy_strings(parents),
                traits,
                fields: copy_fields(fields),
            },
        );
        i += 1;
    }
    assert(entities_view(out@) =~= strings_view(names@).map_values(
        |n: Seq<char>| entity_named(n, pv, fv),
    ));
    out
}

/// One action per name, each with a copy of what it applies to.
fn make_actions(names: &Vec<String>, applies: &Option<ActionAppliesTo>) -> (out: Vec<ActionDef>)
    ensures
        actions_view(out@) == strings_view(names@).map_values(
            |n: Seq<char>| SAction { name: n, applies_to: opt_applies_view(*applies) },
        ),
{
    let ghost av = opt_applies_view(*applies);
    let mut out: Vec<ActionDef> = Vec::new();
    let mut i: usize = 0;
    while i < names.len()
        invariant
            i <= names.len(),
            out@.len() == i,
            av == opt_applies_view(*applies),
            forall|j: int|
                0 <= j < i ==> #[trigger] out@[j]@ == (SAction { name: names@[j]@, applies_to: av }),
        decreases names.len() - i,
    {
        let a = match applies {
            Some(x) => Some(copy_applies_to(x)),
            None => None,
        };
        out.push(ActionDef { name: names[i].clone(), applies_to: a });
        i += 1;
    }
    assert(actions_view(out@) =~= strings_view(names@).map_values(
        |n: Seq<char>| SAction { name: n, applies_to: av },
    ));
    out
}

} // verus!

verus! {

impl SchemaParser {
    /// `type Name = Type;`
    fn parse_type_decl(&self, pos: usize) -> (r: Result<(AbstractDef, usize), CedarSchemaError>)
        requires
            self.wf(),
            pos < self.tokens.len(),
        ensures
            parsed(r, type_decl(self.ts(), pos as int), pos, self.tokens@.len()),
    {
        let p1 = match self.expect_word(pos, "type") {
            Ok(x) => x,
            Err(e) => return Err(e),
        };
        let (name, p2) = match self.consume_ident(p1) {
            Ok(x) => x,
            Err(e) => return Err(e),
        };
        let p3 = match self.expect(p2, SchemaTokKind::Assign) {
            Ok(x) => x,
            Err(e) => return Err(e),
        };
        let (ty, p4) = match self.parse_type(p3) {
            Ok(x) => x,
            Err(e) => return Err(e),
        };
        let p5 = match self.expect(p4, SchemaTokKind::Semi) {
            Ok(x) => x,
            Err(e) => return Err(e),
        };
        let fields = match ty {
            TypeRef::Record(fs) => fs,
            _ => {
                let v: Vec<FieldDef> = Vec::new();
                assert(fields_view(v@) =~= Seq::<SField>::empty());
                v
            },
        };
        Ok((AbstractDef { name, fields }, p5))
    }

    /// An `entity`, `action` or `type` declaration.
    fn parse_decl(&self, pos: usize) -> (r: Result<(Decls, usize), CedarSchemaError>)
        requires
            self.wf(),
            pos < self.tokens.len(),
        ensures
            parsed(r, decl(self.ts(), pos as int), pos, self.tokens@.len()),
    {
        reveal(decl);
        if self.at_word(pos, "entity") {
            match self.parse_entities(pos) {
                Ok((es, p)) => Ok((Decls::Entities(es), p)),
                Err(e) => Err(e),
            }
        } else if self.at_word(pos, "action") {
            match self.parse_actions(pos) {
                Ok((acts, p)) => Ok((Decls::Actions(acts), p)),
                Err(e) => Err(e),
            }
        } else if self.at_word(pos, "type") {
            match self.parse_type_decl(pos) {
                Ok((t, p)) => Ok((Decls::TypeDecl(t), p)),
                Err(e) => Err(e),
            }
        } else {
            Err(self.err_got(pos, "expected 'entity', 'action', or 'type', got "))
        }
    }

    /// The declarations of a namespace up to and past its `}`, added to `m`.
    fn parse_namespace_body(&self, pos: usize, start: ModuleDef) -> (r: Result<
        (ModuleDef, usize),
        CedarSchemaError,
    >)
        requires
            self.wf(),
            pos < self.tokens.len(),
        ensures
            parsed(r, namespace_body(self.ts(), pos as int, start@), pos, self.tokens@.len()),
    {
        let ghost ts = self.ts();
        let ghost m0 = start@;
        let mut m = start;
        let mut p = pos;
        loop
            invariant
                self.wf(),
                ts == self.ts(),
                pos <= p < self.tokens.len(),
                m0 == start@,
                namespace_body(ts, pos as int, m0) == namespace_body(ts, p as int, m@),
            decreases self.tokens@.len() - p,
        {
            if self.tokens[p].kind == SchemaTokKind::RBrace {
                proof {
                    lemma_schema_wf_next(ts, p as int);
                }
                return Ok((m, p + 1));
            }
            let p1 = match self.skip_annotations(p) {
                Ok(x) => x,
                Err(e) => return Err(e),
            };
            if self.tokens[p1].kind == SchemaTokKind::RBrace {
                proof {
                    lemma_schema_wf_next(ts, p1 as int);
                }
                return Ok((m, p1 + 1));
            }
            let (d, p2) = match self.parse_decl(p1) {
                Ok(x) => x,
                Err(e) => return Err(e),
            };
            m = add_decls_to(m, d);
            p = p2;
        }
    }

    /// `namespace A::B { ... }`, with an optional `;` after it.
    fn parse_namespace(&self, pos: usize) -> (r: Result<(ModuleDef, usize), CedarSchemaError>)
        requires
            self.wf(),
            pos < self.tokens.len(),
        ensures
            parsed(r, namespace(self.ts(), pos as int), pos, self.tokens@.len()),
    {
        let ghost ts = self.ts();
        let p1 = match self.expect_word(pos, "namespace") {
            Ok(x) => x,
            Err(e) => return Err(e),
        };
        let (name, p2) = match self.parse_path(p1) {
            Ok(x) => x,
            Err(e) => return Err(e),
        };
        let p3 = match self.expect(p2, SchemaTokKind::LBrace) {
            Ok(x) => x,
            Err(e) => return Err(e),
        };
        let m = empty_module(Some(name));
        let (m, p4) = match self.parse_namespace_body(p3, m) {
            Ok(x) => x,
            Err(e) => return Err(e),
        };
        if self.tokens[p4].kind == SchemaTokKind::Semi {
            proof {
                lemma_schema_wf_next(ts, p4 as int);
            }
            Ok((m, p4 + 1))
        } else {
            Ok((m, p4))
        }
    }

    /// The modules of the whole schema.
    fn parse_schema(&self) -> (r: Result<Vec<ModuleDef>, CedarSchemaError>)
        requires
            self.wf(),
        ensures
            match r {
                Ok(ms) => schema_items(self.ts(), 0, Seq::empty()) == Ok::<Seq<SModule>, SError>(
                    modules_view(ms@),
                ),
                Err(e) => schema_items(self.ts(), 0, Seq::empty()) == Err::<Seq<SModule>, SError>(
                    e@,
                ),
            },
    {
        let ghost ts = self.ts();
        let mut modules: Vec<ModuleDef> = Vec::new();
        assert(modules_view(modules@) =~= Seq::<SModule>::empty());
        let mut p: usize = 0;
        loop
            invariant
                self.wf(),
                ts == self.ts(),
                p < self.tokens.len(),
                schema_items(ts, 0, Seq::empty()) == schema_items(
                    ts,
                    p as int,
                    modules_view(modules@),
                ),
            decreases self.tokens@.len() - p,
        {
            if self.tokens[p].kind == SchemaTokKind::Eof {
                return Ok(modules);
            }
            let p1 = match self.skip_annotations(p) {
                Ok(x) => x,
                Err(e) => return Err(e),
            };
            if self.at_word(p1, "namespace") {
                let (m, p2) = match self.parse_namespace(p1) {
                    Ok(x) => x,
                    Err(e) => return Err(e),
                };
                let ghost before = modules@;
                modules.push(m);
                assert(modules_view(modules@) =~= modules_view(before).push(modules@.last()@));
                p = p2;
            } else if self.at_word(p1, "entity") || self.at_word(p1, "action") || self.at_word(
                p1,
                "type",
            ) {
                let (d, p2) = match self.parse_decl(p1) {
                    Ok(x) => x,
                    Err(e) => return Err(e),
                };
                let ghost ms = modules_view(modules@);
                let fresh = modules.len() == 0 || modules[modules.len() - 1].name.is_some();
                if fresh {
                    let ghost before = modules@;
                    modules.push(empty_module(None));
                    assert(modules_view(modules@) =~= ms.push(empty_smodule(None)));
                }
                let ghost ms1 = modules_view(modules@);
                let ghost before = modules@;
                let last = modules.pop().unwrap();
                assert(modules_view(modules@) =~= ms1.drop_last());
                modules.push(add_decls_to(last, d));
                assert(modules_view(modules@) =~= ms1.drop_last().push(modules@.last()@));
                assert(modules_view(modules@) == add_top_level(ms, d@));
                p = p2;
            } else if self.tokens[p1].kind == SchemaTokKind::Eof {
                return Ok(modules);
            } else {
                return Err(
                    self.err_got(
                        p1,
                        "expected 'namespace', 'entity', 'action', or 'type', got ",
                    ),
                );
            }
        }
    }
}

/// Parses a Cedar schema into modules: one per `namespace`, in order, and
/// one unnamed module for each run of declarations outside any namespace.
/// Entities are actors with no traits; annotations, action parents and
/// entity tags are read and dropped.
pub fn parse_cedarschema(source: &str) -> (r: Result<Vec<ModuleDef>, CedarSchemaError>)
    requires
        source@.len() < usize::MAX,
    ensures
        match r {
            Ok(ms) => parse_schema_spec(source@) == Ok::<Seq<SModule>, SError>(modules_view(ms@)),
            Err(e) => parse_schema_spec(source@) == Err::<Seq<SModule>, SError>(e@),
        },
{
    let tokens = match tokenize_schema(source) {
        Ok(t) => t,
        Err(e) => return Err(e),
    };
    let parser = SchemaParser { tokens };
    parser.parse_schema()
}

} // verus!
