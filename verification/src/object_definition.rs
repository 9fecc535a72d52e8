//! The schema engine: parses a generic nested key/value table into a
//! recursive tree of named, typed fields and child schemas, preserving
//! declaration order and rejecting reserved names.
//!
//! The executable parser is proven equal to the specification functions
//! `parse_def` / `parse_entries`, which define the whole construction:
//! which tables parse, the resulting field set, field order, template
//! binding and children, and which error is reported otherwise.
use crate::reserved_fields::{is_reserved, is_reserved_field, template_key, ReservedFieldError};
use crate::text::str_eq;
use vstd::prelude::*;

verus! {

broadcast use vstd::seq::group_seq_axioms, vstd::std_specs::vec::group_vec_axioms;

/// Nesting bound for schema tables; deeper tables are rejected.
pub const MAX_SCHEMA_DEPTH: usize = 32;

#[derive(Debug, Clone, PartialEq)]
pub enum InvalidFieldError {
    UnrecognizedType(String),
    InvalidDate(String),
    TypeMismatch { field: String, field_type: String, value: String },
    InvalidChild { key: String, index: usize, child: String },
    NotAnArray { key: String, value: String },
    ReservedObjectNameError(String),
}

/// The closed set of scalar field kinds.
#[derive(Debug, Clone, Copy, PartialEq, Eq, Structural)]
pub enum FieldType {
    String,
    Number,
    Date,
    Markdown,
    Boolean,
}

/// The literal name of each field type in schema sources.
pub open spec fn field_type_name(t: FieldType) -> Seq<char> {
    match t {
        FieldType::String => "string"@,
        FieldType::Number => "number"@,
        FieldType::Date => "date"@,
        FieldType::Markdown => "markdown"@,
        FieldType::Boolean => "boolean"@,
    }
}

/// The field type a literal name denotes, if any.
pub open spec fn type_of_name(s: Seq<char>) -> Option<FieldType> {
    if s == "string"@ {
        Some(FieldType::String)
    } else if s == "number"@ {
        Some(FieldType::Number)
    } else if s == "date"@ {
        Some(FieldType::Date)
    } else if s == "markdown"@ {
        Some(FieldType::Markdown)
    } else if s == "boolean"@ {
        Some(FieldType::Boolean)
    } else {
        None
    }
}

impl FieldType {
    pub fn from_str(string: &str) -> (r: Result<FieldType, InvalidFieldError>)
        ensures
            match r {
                Ok(t) => type_of_name(string@) == Some(t),
                Err(e) => type_of_name(string@) is None && (e matches
                    InvalidFieldError::UnrecognizedType(v) && v@ == string@),
            },
    {
        if str_eq(string, "string") {
            Ok(FieldType::String)
        } else if str_eq(string, "number") {
            Ok(FieldType::Number)
        } else if str_eq(string, "date") {
            Ok(FieldType::Date)
        } else if str_eq(string, "markdown") {
            Ok(FieldType::Markdown)
        } else if str_eq(string, "boolean") {
            Ok(FieldType::Boolean)
        } else {
            Err(InvalidFieldError::UnrecognizedType(string.to_owned()))
        }
    }

    pub fn to_str(&self) -> (r: &str)
        ensures
            r@ == field_type_name(*self),
    {
        match self {
            Self::String => "string",
            Self::Number => "number",
            Self::Date => "date",
            Self::Markdown => "markdown",
            Self::Boolean => "boolean",
        }
    }
}

/// One entry of a schema source table: a string, a nested table, or a
/// value of any other shape (recorded in the ordering but otherwise
/// ignored, as the source format does).
#[derive(Debug)]
pub enum SchemaNode {
    Text(String),
    Nested(SchemaTable),
    Other,
}

/// A generic key/value table in declaration order, as yielded by a
/// source-format parser such as a TOML reader.
#[derive(Debug)]
pub struct SchemaTable {
    pub entries: Vec<(String, SchemaNode)>,
}

impl SchemaTable {
    pub fn new() -> (r: SchemaTable)
        ensures
            r.entries@ =~= Seq::<(String, SchemaNode)>::empty(),
    {
        SchemaTable { entries: Vec::new() }
    }

    pub fn push_text(&mut self, key: String, value: String)
        ensures
            final(self).entries@ == old(self).entries@.push((key, SchemaNode::Text(value))),
    {
        self.entries.push((key, SchemaNode::Text(value)));
    }

    pub fn push_nested(&mut self, key: String, value: SchemaTable)
        ensures
            final(self).entries@ == old(self).entries@.push((key, SchemaNode::Nested(value))),
    {
        self.entries.push((key, SchemaNode::Nested(value)));
    }

    pub fn push_other(&mut self, key: String)
        ensures
            final(self).entries@ == old(self).entries@.push((key, SchemaNode::Other)),
    {
        self.entries.push((key, SchemaNode::Other));
    }
}

/// Errors of schema construction.
#[derive(Debug, Clone, PartialEq)]
pub enum SchemaError {
    UnrecognizedType(String),
    ReservedObjectName(String),
    ReservedField(ReservedFieldError),
    NestingTooDeep(String),
}

/// Mathematical model of a schema error.
pub enum SchemaErrModel {
    UnrecognizedType(Seq<char>),
    ReservedObjectName(Seq<char>),
    ReservedField(Seq<char>),
    TooDeep(Seq<char>),
}

pub open spec fn err_model(e: SchemaError) -> SchemaErrModel {
    match e {
        SchemaError::UnrecognizedType(s) => SchemaErrModel::UnrecognizedType(s@),
        SchemaError::ReservedObjectName(s) => SchemaErrModel::ReservedObjectName(s@),
        SchemaError::ReservedField(rf) => SchemaErrModel::ReservedField(rf.field@),
        SchemaError::NestingTooDeep(s) => SchemaErrModel::TooDeep(s@),
    }
}

/// Mathematical model of a parsed schema, minus its name.
#[verifier::ext_equal]
pub struct PartModel {
    pub field_order: Seq<Seq<char>>,
    pub template: Option<Seq<char>>,
    pub fields: Seq<(Seq<char>, FieldType)>,
    pub children: Seq<(Seq<char>, DefModel)>,
}

/// Mathematical model of a parsed schema.
#[verifier::ext_equal]
pub struct DefModel {
    pub name: Seq<char>,
    pub part: PartModel,
}

pub open spec fn empty_part_model() -> PartModel {
    PartModel {
        field_order: Seq::empty(),
        template: None,
        fields: Seq::empty(),
        children: Seq::empty(),
    }
}

pub open spec fn empty_def_model() -> DefModel {
    DefModel { name: Seq::empty(), part: empty_part_model() }
}

/// Replaces the value under `k` in place, or appends the pair when `k`
/// is absent: the update rule of all keyed collections in this crate.
pub open spec fn upd_assoc<V>(s: Seq<(Seq<char>, V)>, k: Seq<char>, v: V) -> Seq<(Seq<char>, V)>
    decreases s.len(),
{
    if s.len() == 0 {
        seq![(k, v)]
    } else if s[0].0 == k {
        seq![(k, v)].add(s.drop_first())
    } else {
        seq![s[0]].add(upd_assoc(s.drop_first(), k, v))
    }
}

/// The value under `k`, if any.
pub open spec fn lookup_assoc<V>(s: Seq<(Seq<char>, V)>, k: Seq<char>) -> Option<V>
    decreases s.len(),
{
    if s.len() == 0 {
        None
    } else if s[0].0 == k {
        Some(s[0].1)
    } else {
        lookup_assoc(s.drop_first(), k)
    }
}

pub proof fn lemma_upd_assoc_absent<V>(s: Seq<(Seq<char>, V)>, k: Seq<char>, v: V)
    requires
        forall|i: int| 0 <= i < s.len() ==> (#[trigger] s[i]).0 != k,
    ensures
        upd_assoc(s, k, v) =~= s.push((k, v)),
    decreases s.len(),
{
    if s.len() > 0 {
        assert(s[0].0 != k);
        lemma_upd_assoc_absent(s.drop_first(), k, v);
    }
}

pub proof fn lemma_upd_assoc_found<V>(s: Seq<(Seq<char>, V)>, k: Seq<char>, v: V, j: int)
    requires
        0 <= j < s.len(),
        s[j].0 == k,
        forall|i: int| 0 <= i < j ==> (#[trigger] s[i]).0 != k,
    ensures
        upd_assoc(s, k, v) =~= s.update(j, (k, v)),
    decreases s.len(),
{
    if j == 0 {
        assert(upd_assoc(s, k, v) =~= s.update(0, (k, v)));
    } else {
        assert(s[0].0 != k);
        lemma_upd_assoc_found(s.drop_first(), k, v, j - 1);
        assert(upd_assoc(s, k, v) =~= s.update(j, (k, v)));
    }
}

/// Parses the entries of one table, in order, into a partial model:
/// every key joins `field_order`; a nested table becomes a child schema;
/// the reserved `template` key binds the template; any other reserved
/// string key is an error; any other string key must name a field type;
/// entries of any other shape are ignored.
pub open spec fn parse_entries(ents: Seq<(String, SchemaNode)>, depth: nat) -> Result<
    PartModel,
    SchemaErrModel,
>
    decreases depth, ents.len(), 0int,
{
    if ents.len() == 0 {
        Ok(empty_part_model())
    } else {
        match parse_entries(ents.drop_last(), depth) {
            Err(e) => Err(e),
            Ok(m) => {
                let key = ents.last().0@;
                match ents.last().1 {
                    SchemaNode::Nested(ct) => {
                        if depth == 0 {
                            Err(SchemaErrModel::TooDeep(key))
                        } else {
                            match parse_def(key, ct, (depth - 1) as nat) {
                                Err(e) => Err(e),
                                Ok(dm) => Ok(
                                    PartModel {
                                        field_order: m.field_order.push(key),
                                        template: m.template,
                                        fields: m.fields,
                                        children: upd_assoc(m.children, key, dm),
                                    },
                                ),
                            }
                        }
                    },
                    SchemaNode::Text(v) => {
                        if key == "template"@ {
                            Ok(
                                PartModel {
                                    field_order: m.field_order.push(key),
                                    template: Some(v@),
                                    fields: m.fields,
                                    children: m.children,
                                },
                            )
                        } else if is_reserved(key) {
                            Err(SchemaErrModel::ReservedField(key))
                        } else {
                            match type_of_name(v@) {
                                Some(ft) => Ok(
                                    PartModel {
                                        field_order: m.field_order.push(key),
                                        template: m.template,
                                        fields: upd_assoc(m.fields, key, ft),
                                        children: m.children,
                                    },
                                ),
                                None => Err(SchemaErrModel::UnrecognizedType(v@)),
                            }
                        }
                    },
                    SchemaNode::Other => Ok(
                        PartModel {
                            field_order: m.field_order.push(key),
                            template: m.template,
                            fields: m.fields,
                            children: m.children,
                        },
                    ),
                }
            },
        }
    }
}

/// Parses one named schema table: a reserved name fails at once, and the
/// entries are parsed by `parse_entries`.
pub open spec fn parse_def(name: Seq<char>, t: SchemaTable, depth: nat) -> Result<
    DefModel,
    SchemaErrModel,
>
    decreases depth, t.entries@.len(), 1int,
{
    if is_reserved(name) {
        Err(SchemaErrModel::ReservedObjectName(name))
    } else {
        match parse_entries(t.entries@, depth) {
            Ok(m) => Ok(DefModel { name: name, part: m }),
            Err(e) => Err(e),
        }
    }
}

pub proof fn lemma_lookup_assoc_found<V>(s: Seq<(Seq<char>, V)>, k: Seq<char>, j: int)
    requires
        0 <= j < s.len(),
        s[j].0 == k,
        forall|i: int| 0 <= i < j ==> (#[trigger] s[i]).0 != k,
    ensures
        lookup_assoc(s, k) == Some(s[j].1),
    decreases s.len(),
{
    if j > 0 {
        assert(s[0].0 != k);
        lemma_lookup_assoc_found(s.drop_first(), k, j - 1);
    }
}

pub proof fn lemma_lookup_assoc_absent<V>(s: Seq<(Seq<char>, V)>, k: Seq<char>)
    requires
        forall|i: int| 0 <= i < s.len() ==> (#[trigger] s[i]).0 != k,
    ensures
        lookup_assoc(s, k) is None,
    decreases s.len(),
{
    if s.len() > 0 {
        assert(s[0].0 != k);
        lemma_lookup_assoc_absent(s.drop_first(), k);
    }
}

/// An error anywhere in a prefix of the entries decides the whole parse.
pub proof fn lemma_parse_entries_err(ents: Seq<(String, SchemaNode)>, j: int, depth: nat)
    requires
        0 <= j <= ents.len(),
        parse_entries(ents.subrange(0, j), depth) is Err,
    ensures
        parse_entries(ents, depth) == parse_entries(ents.subrange(0, j), depth),
    decreases ents.len() - j,
{
    if j == ents.len() {
        assert(ents.subrange(0, j) =~= ents);
    } else {
        assert(ents.subrange(0, j + 1).drop_last() =~= ents.subrange(0, j));
        lemma_parse_entries_err(ents, j + 1, depth);
    }
}

/// A recursive schema node: named, typed fields and child schemas in one
/// declaration-order namespace, with an optional bound template.
#[derive(Debug)]
pub struct ObjectDefinition {
    pub name: String,
    pub fields: Vec<(String, FieldType)>,
    pub field_order: Vec<String>,
    pub template: Option<String>,
    pub children: Vec<ObjectDefinition>,
}

pub open spec fn strs_model(s: Seq<String>) -> Seq<Seq<char>> {
    s.map_values(|x: String| x@)
}

pub open spec fn fields_model(s: Seq<(String, FieldType)>) -> Seq<(Seq<char>, FieldType)> {
    s.map_values(|p: (String, FieldType)| (p.0@, p.1))
}

pub open spec fn opt_str_model(o: Option<String>) -> Option<Seq<char>> {
    match o {
        Some(s) => Some(s@),
        None => None,
    }
}

/// The model of a schema node, with its children keyed by name.
pub open spec fn def_model(d: ObjectDefinition) -> DefModel
    decreases d,
{
    DefModel {
        name: d.name@,
        part: PartModel {
            field_order: strs_model(d.field_order@),
            template: opt_str_model(d.template),
            fields: fields_model(d.fields@),
            children: Seq::new(
                d.children@.len(),
                |i: int|
                    if 0 <= i < d.children@.len() {
                        (d.children@[i].name@, def_model(d.children@[i]))
                    } else {
                        (Seq::empty(), empty_def_model())
                    },
            ),
        },
    }
}

/// The children of a schema vector, keyed by name.
pub open spec fn kids_model(s: Seq<ObjectDefinition>) -> Seq<(Seq<char>, DefModel)> {
    Seq::new(
        s.len(),
        |i: int|
            if 0 <= i < s.len() {
                (s[i].name@, def_model(s[i]))
            } else {
                (Seq::empty(), empty_def_model())
            },
    )
}

/// Replaces the schema of the same name, or appends.
fn upd_def_vec(v: &mut Vec<ObjectDefinition>, d: ObjectDefinition)
    ensures
        kids_model(final(v)@) =~= upd_assoc(kids_model(old(v)@), d.name@, def_model(d)),
{
    let ghost k = d.name@;
    let ghost dm = def_model(d);
    let n = v.len();
    let mut j: usize = 0;
    while j < n
        invariant
            j <= n,
            n == v@.len(),
            v@ == old(v)@,
            forall|i: int| 0 <= i < j ==> (#[trigger] kids_model(v@)[i]).0 != k,
            dm == def_model(d),
            k == d.name@,
        decreases n - j,
    {
        if str_eq(v[j].name.as_str(), d.name.as_str()) {
            proof {
                lemma_upd_assoc_found(kids_model(v@), k, dm, j as int);
            }
            v.remove(j);
            v.insert(j, d);
            proof {
                assert(kids_model(v@) =~= kids_model(old(v)@).update(
                    j as int,
                    (k, dm),
                ));
            }
            return ;
        }
        j += 1;
    }
    proof {
        lemma_upd_assoc_absent(kids_model(v@), k, dm);
    }
    v.push(d);
    proof {
        assert(kids_model(v@) =~= kids_model(old(v)@).push((k, dm)));
    }
}

/// Replaces the field of the same name, or appends.
fn upd_field_vec(v: &mut Vec<(String, FieldType)>, key: String, ft: FieldType)
    ensures
        fields_model(final(v)@) =~= upd_assoc(fields_model(old(v)@), key@, ft),
{
    let n = v.len();
    let mut j: usize = 0;
    while j < n
        invariant
            j <= n,
            n == v@.len(),
            v@ == old(v)@,
            forall|i: int| 0 <= i < j ==> (#[trigger] fields_model(v@)[i]).0 != key@,
        decreases n - j,
    {
        if str_eq(v[j].0.as_str(), key.as_str()) {
            proof {
                lemma_upd_assoc_found(fields_model(v@), key@, ft, j as int);
            }
            v.remove(j);
            v.insert(j, (key, ft));
            proof {
                assert(fields_model(v@) =~= fields_model(old(v)@).update(
                    j as int,
                    (key@, ft),
                ));
            }
            return ;
        }
        j += 1;
    }
    proof {
        lemma_upd_assoc_absent(fields_model(v@), key@, ft);
    }
    v.push((key, ft));
    proof {
        assert(fields_model(v@) =~= fields_model(old(v)@).push((key@, ft)));
    }
}

impl ObjectDefinition {
    #[verifier::loop_isolation(false)]
    fn new_at(name: &str, definition: &SchemaTable, depth: usize) -> (r: Result<
        ObjectDefinition,
        SchemaError,
    >)
        ensures
            match r {
                Ok(d) => parse_def(name@, *definition, depth as nat) == Ok::<
                    DefModel,
                    SchemaErrModel,
                >(def_model(d)),
                Err(e) => parse_def(name@, *definition, depth as nat) == Err::<
                    DefModel,
                    SchemaErrModel,
                >(err_model(e)),
            },
        decreases depth,
    {
        if is_reserved_field(name) {
            return Err(SchemaError::ReservedObjectName(name.to_owned()));
        }
        let ghost ents = definition.entries@;
        let mut field_order: Vec<String> = Vec::new();
        let mut fields: Vec<(String, FieldType)> = Vec::new();
        let mut template: Option<String> = None;
        let mut children: Vec<ObjectDefinition> = Vec::new();
        let n = definition.entries.len();
        let mut i: usize = 0;
        proof {
            assert(ents.subrange(0, 0) =~= Seq::<(String, SchemaNode)>::empty());
            assert(strs_model(field_order@) =~= Seq::<Seq<char>>::empty());
            assert(fields_model(fields@) =~= Seq::<(Seq<char>, FieldType)>::empty());
            assert(kids_model(children@) =~= Seq::<(Seq<char>, DefModel)>::empty());
            assert(PartModel {
                field_order: strs_model(field_order@),
                template: opt_str_model(template),
                fields: fields_model(fields@),
                children: kids_model(children@),
            } =~= empty_part_model());
        }
        while i < n
            invariant
                i <= n,
                parse_entries(ents.subrange(0, i as int), depth as nat) == Ok::<
                    PartModel,
                    SchemaErrModel,
                >(
                    PartModel {
                        field_order: strs_model(field_order@),
                        template: opt_str_model(template),
                        fields: fields_model(fields@),
                        children: kids_model(children@),
                    },
                ),
            decreases n - i,
        {
            let ghost prefix = ents.subrange(0, i as int);
            let ghost prefix1 = ents.subrange(0, i as int + 1);
            proof {
                assert(prefix1.drop_last() =~= prefix);
                assert(prefix1.last() == ents[i as int]);
            }
            let key: String = definition.entries[i].0.clone();
            match &definition.entries[i].1 {
                SchemaNode::Nested(child_table) => {
                    if depth == 0 {
                        proof {
                            lemma_parse_entries_err(ents, i as int + 1, depth as nat);
                        }
                        return Err(SchemaError::NestingTooDeep(key));
                    }
                    match Self::new_at(key.as_str(), child_table, depth - 1) {
                        Err(e) => {
                            proof {
                                lemma_parse_entries_err(ents, i as int + 1, depth as nat);
                            }
                            return Err(e);
                        },
                        Ok(child) => {
                            field_order.push(key);
                            upd_def_vec(&mut children, child);
                        },
                    }
                },
                SchemaNode::Text(value) => {
                    if str_eq(key.as_str(), template_key()) {
                        field_order.push(key);
                        template = Some(value.clone());
                    } else if is_reserved_field(key.as_str()) {
                        proof {
                            lemma_parse_entries_err(ents, i as int + 1, depth as nat);
                        }
                        return Err(SchemaError::ReservedField(ReservedFieldError { field: key }));
                    } else {
                        match FieldType::from_str(value.as_str()) {
                            Ok(ft) => {
                                field_order.push(key.clone());
                                upd_field_vec(&mut fields, key, ft);
                            },
                            Err(_) => {
                                proof {
                                    lemma_parse_entries_err(ents, i as int + 1, depth as nat);
                                }
                                return Err(SchemaError::UnrecognizedType(value.clone()));
                            },
                        }
                    }
                },
                SchemaNode::Other => {
                    field_order.push(key);
                },
            }
            proof {
                assert(strs_model(field_order@) =~= parse_entries(
                    prefix,
                    depth as nat,
                )->Ok_0.field_order.push(ents[i as int].0@));
            }
            i += 1;
        }
        proof {
            assert(ents.subrange(0, n as int) =~= ents);
        }
        let d = ObjectDefinition { name: name.to_owned(), fields, field_order, template, children };
        proof {
            assert(def_model(d).part.children =~= kids_model(d.children@));
            assert(def_model(d) =~= DefModel {
                name: name@,
                part: PartModel {
                    field_order: strs_model(d.field_order@),
                    template: opt_str_model(d.template),
                    fields: fields_model(d.fields@),
                    children: kids_model(d.children@),
                },
            });
        }
        Ok(d)
    }

    /// Parses one named schema table.  The result is exactly the model
    /// that `parse_def` assigns to the input, with nesting bounded by
    /// `MAX_SCHEMA_DEPTH`.
    pub fn new(name: &str, definition: &SchemaTable) -> (r: Result<ObjectDefinition, SchemaError>)
        ensures
            match r {
                Ok(d) => parse_def(name@, *definition, MAX_SCHEMA_DEPTH as nat) == Ok::<
                    DefModel,
                    SchemaErrModel,
                >(def_model(d)),
                Err(e) => parse_def(name@, *definition, MAX_SCHEMA_DEPTH as nat) == Err::<
                    DefModel,
                    SchemaErrModel,
                >(err_model(e)),
            },
    {
        Self::new_at(name, definition, MAX_SCHEMA_DEPTH)
    }

    /// The declared type of a scalar field.
    pub fn field(&self, name: &str) -> (r: Option<&FieldType>)
        ensures
            match r {
                Some(t) => lookup_assoc(fields_model(self.fields@), name@) == Some(*t),
                None => lookup_assoc(fields_model(self.fields@), name@) is None,
            },
    {
        let n = self.fields.len();
        let mut j: usize = 0;
        while j < n
            invariant
                j <= n,
                n == self.fields@.len(),
                forall|i: int| 0 <= i < j ==> (#[trigger] fields_model(self.fields@)[i]).0 != name@,
            decreases n - j,
        {
            if str_eq(self.fields[j].0.as_str(), name) {
                proof {
                    lemma_lookup_assoc_found(fields_model(self.fields@), name@, j as int);
                }
                return Some(&self.fields[j].1);
            }
            j += 1;
        }
        proof {
            lemma_lookup_assoc_absent(fields_model(self.fields@), name@);
        }
        None
    }

    /// The child schema of the given name.
    pub fn child(&self, name: &str) -> (r: Option<&ObjectDefinition>)
        ensures
            match r {
                Some(d) => lookup_assoc(kids_model(self.children@), name@) == Some(def_model(*d))
                    && d.name@ == name@ && exists|j: int|
                    0 <= j < self.children@.len() && #[trigger] self.children@[j] == *d,
                None => lookup_assoc(kids_model(self.children@), name@) is None,
            },
    {
        let n = self.children.len();
        let mut j: usize = 0;
        while j < n
            invariant
                j <= n,
                n == self.children@.len(),
                forall|i: int| 0 <= i < j ==> (#[trigger] kids_model(self.children@)[i]).0 != name@,
            decreases n - j,
        {
            if str_eq(self.children[j].name.as_str(), name) {
                proof {
                    lemma_lookup_assoc_found(kids_model(self.children@), name@, j as int);
                }
                return Some(&self.children[j]);
            }
            j += 1;
        }
        proof {
            lemma_lookup_assoc_absent(kids_model(self.children@), name@);
        }
        None
    }
}

/// Parses every top-level entry that is itself a table; entries of any
/// other shape are skipped.  Later schemas of an equal name replace
/// earlier ones.
pub open spec fn parse_table(ents: Seq<(String, SchemaNode)>, depth: nat) -> Result<
    Seq<(Seq<char>, DefModel)>,
    SchemaErrModel,
>
    decreases ents.len(),
{
    if ents.len() == 0 {
        Ok(Seq::empty())
    } else {
        match parse_table(ents.drop_last(), depth) {
            Err(e) => Err(e),
            Ok(m) => match ents.last().1 {
                SchemaNode::Nested(ct) => match parse_def(ents.last().0@, ct, depth) {
                    Err(e) => Err(e),
                    Ok(dm) => Ok(upd_assoc(m, ents.last().0@, dm)),
                },
                _ => Ok(m),
            },
        }
    }
}

pub proof fn lemma_parse_table_err(ents: Seq<(String, SchemaNode)>, j: int, depth: nat)
    requires
        0 <= j <= ents.len(),
        parse_table(ents.subrange(0, j), depth) is Err,
    ensures
        parse_table(ents, depth) == parse_table(ents.subrange(0, j), depth),
    decreases ents.len() - j,
{
    if j == ents.len() {
        assert(ents.subrange(0, j) =~= ents);
    } else {
        assert(ents.subrange(0, j + 1).drop_last() =~= ents.subrange(0, j));
        lemma_parse_table_err(ents, j + 1, depth);
    }
}

/// The set of parsed schemas of one site, keyed by name.
#[derive(Debug)]
pub struct ObjectDefinitions {
    pub defs: Vec<ObjectDefinition>,
}

impl ObjectDefinitions {
    pub fn len(&self) -> (r: usize)
        ensures
            r == kids_model(self.defs@).len(),
    {
        self.defs.len()
    }

    /// The schema of the given name.
    pub fn get(&self, name: &str) -> (r: Option<&ObjectDefinition>)
        ensures
            match r {
                Some(d) => lookup_assoc(kids_model(self.defs@), name@) == Some(def_model(*d)),
                None => lookup_assoc(kids_model(self.defs@), name@) is None,
            },
    {
        let n = self.defs.len();
        let mut j: usize = 0;
        while j < n
            invariant
                j <= n,
                n == self.defs@.len(),
                forall|i: int| 0 <= i < j ==> (#[trigger] kids_model(self.defs@)[i]).0 != name@,
            decreases n - j,
        {
            if str_eq(self.defs[j].name.as_str(), name) {
                proof {
                    lemma_lookup_assoc_found(kids_model(self.defs@), name@, j as int);
                }
                return Some(&self.defs[j]);
            }
            j += 1;
        }
        proof {
            lemma_lookup_assoc_absent(kids_model(self.defs@), name@);
        }
        None
    }
}

impl ObjectDefinition {
    /// Parses every schema of a top-level source table.  The result is
    /// exactly the model that `parse_table` assigns to the input.
    #[verifier::loop_isolation(false)]
    pub fn from_table(table: &SchemaTable) -> (r: Result<ObjectDefinitions, SchemaError>)
        ensures
            match r {
                Ok(ds) => parse_table(table.entries@, MAX_SCHEMA_DEPTH as nat) == Ok::<
                    Seq<(Seq<char>, DefModel)>,
                    SchemaErrModel,
                >(kids_model(ds.defs@)),
                Err(e) => parse_table(table.entries@, MAX_SCHEMA_DEPTH as nat) == Err::<
                    Seq<(Seq<char>, DefModel)>,
                    SchemaErrModel,
                >(err_model(e)),
            },
    {
        let ghost ents = table.entries@;
        let ghost depth = MAX_SCHEMA_DEPTH as nat;
        let mut defs: Vec<ObjectDefinition> = Vec::new();
        let n = table.entries.len();
        let mut i: usize = 0;
        proof {
            assert(ents.subrange(0, 0) =~= Seq::<(String, SchemaNode)>::empty());
            assert(kids_model(defs@) =~= Seq::<(Seq<char>, DefModel)>::empty());
        }
        while i < n
            invariant
                i <= n,
                parse_table(ents.subrange(0, i as int), depth) == Ok::<
                    Seq<(Seq<char>, DefModel)>,
                    SchemaErrModel,
                >(kids_model(defs@)),
            decreases n - i,
        {
            proof {
                assert(ents.subrange(0, i as int + 1).drop_last() =~= ents.subrange(0, i as int));
                assert(ents.subrange(0, i as int + 1).last() == ents[i as int]);
            }
            match &table.entries[i].1 {
                SchemaNode::Nested(def_table) => {
                    match Self::new_at(table.entries[i].0.as_str(), def_table, MAX_SCHEMA_DEPTH) {
                        Err(e) => {
                            proof {
                                lemma_parse_table_err(ents, i as int + 1, depth);
                            }
                            return Err(e);
                        },
                        Ok(d) => {
                            upd_def_vec(&mut defs, d);
                        },
                    }
                },
                _ => {},
            }
            i += 1;
        }
        proof {
            assert(ents.subrange(0, n as int) =~= ents);
        }
        Ok(ObjectDefinitions { defs })
    }
}

/// Key order is preserved: a parsed schema's `field_order` is exactly
/// the keys of the source table, in declaration order, one per entry —
/// including keys whose entries declare neither a field nor a child.
pub proof fn lemma_field_order_is_keys(ents: Seq<(String, SchemaNode)>, depth: nat)
    requires
        parse_entries(ents, depth) is Ok,
    ensures
        parse_entries(ents, depth)->Ok_0.field_order =~= ents.map_values(
            |e: (String, SchemaNode)| e.0@,
        ),
    decreases ents.len(),
{
    if ents.len() > 0 {
        lemma_field_order_is_keys(ents.drop_last(), depth);
        assert(ents.map_values(|e: (String, SchemaNode)| e.0@) =~= ents.drop_last().map_values(
            |e: (String, SchemaNode)| e.0@,
        ).push(ents.last().0@));
    }
}

/// Key order is preserved at the schema level: a schema that parses has
/// one `field_order` entry per source key, in declaration order.
pub proof fn lemma_parse_def_keeps_key_order(name: Seq<char>, t: SchemaTable, depth: nat)
    requires
        parse_def(name, t, depth) is Ok,
    ensures
        parse_def(name, t, depth)->Ok_0.part.field_order =~= t.entries@.map_values(
            |e: (String, SchemaNode)| e.0@,
        ),
        parse_def(name, t, depth)->Ok_0.part.field_order.len() == t.entries@.len(),
{
    lemma_field_order_is_keys(t.entries@, depth);
}

/// A schema whose name is reserved never parses, and fails with the
/// reserved-name error naming it.
pub proof fn lemma_reserved_name_rejected(name: Seq<char>, t: SchemaTable, depth: nat)
    requires
        is_reserved(name),
    ensures
        parse_def(name, t, depth) == Err::<DefModel, SchemaErrModel>(
            SchemaErrModel::ReservedObjectName(name),
        ),
{
}

/// When a schema parses, no declared field key and no child key is a
/// reserved word — the reserved `template` key never reaches the field
/// set, and a reserved key in field position fails the parse.
pub proof fn lemma_no_reserved_keys_on_success(ents: Seq<(String, SchemaNode)>, depth: nat)
    requires
        parse_entries(ents, depth) is Ok,
    ensures
        forall|i: int|
            0 <= i < parse_entries(ents, depth)->Ok_0.fields.len() ==> !is_reserved(
                (#[trigger] parse_entries(ents, depth)->Ok_0.fields[i]).0,
            ),
        forall|i: int|
            0 <= i < parse_entries(ents, depth)->Ok_0.children.len() ==> !is_reserved(
                (#[trigger] parse_entries(ents, depth)->Ok_0.children[i]).0,
            ),
    decreases ents.len(),
{
    if ents.len() > 0 {
        lemma_no_reserved_keys_on_success(ents.drop_last(), depth);
        let m = parse_entries(ents.drop_last(), depth)->Ok_0;
        let key = ents.last().0@;
        match ents.last().1 {
            SchemaNode::Nested(ct) => {
                assert(!is_reserved(key));
                lemma_upd_assoc_not_reserved(
                    m.children,
                    key,
                    parse_def(key, ct, (depth - 1) as nat)->Ok_0,
                );
            },
            SchemaNode::Text(v) => {
                if key != "template"@ && !is_reserved(key) && type_of_name(v@) is Some {
                    lemma_upd_assoc_not_reserved(m.fields, key, type_of_name(v@)->0);
                }
            },
            SchemaNode::Other => {},
        }
    }
}

/// `upd_assoc` keeps "no key is reserved" when the new key is not.
pub proof fn lemma_upd_assoc_not_reserved<V>(s: Seq<(Seq<char>, V)>, k: Seq<char>, v: V)
    requires
        forall|i: int| 0 <= i < s.len() ==> !is_reserved((#[trigger] s[i]).0),
        !is_reserved(k),
    ensures
        forall|i: int|
            0 <= i < upd_assoc(s, k, v).len() ==> !is_reserved((#[trigger] upd_assoc(s, k, v)[i]).0),
    decreases s.len(),
{
    let u = upd_assoc(s, k, v);
    if s.len() == 0 {
        assert(u[0].0 == k);
    } else if s[0].0 == k {
        assert forall|i: int| 0 <= i < u.len() implies !is_reserved((#[trigger] u[i]).0) by {
            if i > 0 {
                assert(u[i] == s.drop_first()[i - 1]);
                assert(s.drop_first()[i - 1] == s[i]);
            }
        }
    } else {
        lemma_upd_assoc_not_reserved(s.drop_first(), k, v);
        assert forall|i: int| 0 <= i < u.len() implies !is_reserved((#[trigger] u[i]).0) by {
            if i > 0 {
                assert(u[i] == upd_assoc(s.drop_first(), k, v)[i - 1]);
            } else {
                assert(u[0] == s[0]);
            }
        }
    }
}

} // verus!
