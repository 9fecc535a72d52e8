//! The rendering context: a nested key/value tree assembled from typed
//! field values, and its serialization to JSON text for the template
//! engine.  Markdown becomes HTML and dates become display text only
//! here, at render time.
use crate::fields::{is_default_of, FieldValue, FieldValues};
use crate::object::Object;
use crate::object_definition::{upd_assoc, FieldType};
use crate::text::{dec_int, digit_char, digit_str, i64_to_string, is_number_lit, is_number_lit_exec};
use vstd::prelude::*;
use vstd::string::StrSliceExecFns;

verus! {

broadcast use vstd::seq::group_seq_axioms, vstd::std_specs::vec::group_vec_axioms;

/// A value of the template engine's context: scalar text, a numeric
/// literal, a truth value, a list, or a keyed table.
#[derive(Debug)]
pub enum CtxValue {
    Text(String),
    Num(String),
    Truth(bool),
    List(Vec<CtxValue>),
    Table(Vec<(String, CtxValue)>),
}

/// Mathematical model of a context value.
#[verifier::ext_equal]
pub enum CtxModel {
    Text(Seq<char>),
    Num(Seq<char>),
    Truth(bool),
    List(Seq<CtxModel>),
    Table(Seq<(Seq<char>, CtxModel)>),
}

pub open spec fn ctx_model(v: CtxValue) -> CtxModel
    decreases v,
{
    match v {
        CtxValue::Text(s) => CtxModel::Text(s@),
        CtxValue::Num(s) => CtxModel::Num(s@),
        CtxValue::Truth(b) => CtxModel::Truth(b),
        CtxValue::List(items) => CtxModel::List(
            Seq::new(
                items@.len(),
                |i: int|
                    if 0 <= i < items@.len() {
                        ctx_model(items@[i])
                    } else {
                        CtxModel::Truth(false)
                    },
            ),
        ),
        CtxValue::Table(pairs) => CtxModel::Table(
            Seq::new(
                pairs@.len(),
                |i: int|
                    if 0 <= i < pairs@.len() {
                        (pairs@[i].0@, ctx_model(pairs@[i].1))
                    } else {
                        (Seq::empty(), CtxModel::Truth(false))
                    },
            ),
        ),
    }
}

/// The model of a vector of keyed context pairs.
pub open spec fn pairs_model(s: Seq<(String, CtxValue)>) -> Seq<(Seq<char>, CtxModel)> {
    Seq::new(
        s.len(),
        |i: int|
            if 0 <= i < s.len() {
                (s[i].0@, ctx_model(s[i].1))
            } else {
                (Seq::empty(), CtxModel::Truth(false))
            },
    )
}

/// What the markdown converter returns for a given source text: the
/// rendered HTML is a function of the characters alone.
pub uninterp spec fn html_of(s: Seq<char>) -> Seq<char>;

/// Relies on pulldown_cmark::Parser::new and pulldown_cmark::html::push_html:
/// converts one markdown source to its HTML rendering, a function of the
/// text alone.  An empty source renders to nothing: the parser emits no
/// events for it, so nothing is pushed.
#[verifier::external_body]
fn markdown_to_html(s: &str) -> (r: String)
    ensures
        r@ == html_of(s@),
        s@.len() == 0 ==> r@.len() == 0,
{
    let mut out = String::new();
    pulldown_cmark::html::push_html(&mut out, pulldown_cmark::Parser::new(s));
    out
}

/// Whether a field value can convert to the engine's native
/// representation: number literals must be well formed and dates valid.
pub open spec fn value_convertible(v: FieldValue) -> bool
    decreases v,
{
    match v {
        FieldValue::String(_) => true,
        FieldValue::Markdown(_) => true,
        FieldValue::Number(s) => is_number_lit(s@),
        FieldValue::Boolean(_) => true,
        FieldValue::Date(d) => d.wf(),
        FieldValue::Objects(objs) => forall|i: int|
            0 <= i < objs@.len() ==> values_convertible(#[trigger] objs@[i]),
    }
}

pub open spec fn values_convertible(fv: FieldValues) -> bool
    decreases fv,
{
    forall|j: int| 0 <= j < fv.pairs@.len() ==> value_convertible((#[trigger] fv.pairs@[j]).1)
}

/// The native-context conversion of one field value: text stays text,
/// markdown becomes its HTML, numbers keep their literal, dates become
/// display text, child records become a list of tables.
pub open spec fn ctx_of_value(v: FieldValue) -> CtxModel
    decreases v,
{
    match v {
        FieldValue::String(s) => CtxModel::Text(s@),
        FieldValue::Markdown(s) => CtxModel::Text(html_of(s@)),
        FieldValue::Number(s) => CtxModel::Num(s@),
        FieldValue::Boolean(b) => CtxModel::Truth(b),
        FieldValue::Date(d) => CtxModel::Text(d.display_model()),
        FieldValue::Objects(objs) => CtxModel::List(
            Seq::new(
                objs@.len(),
                |i: int|
                    if 0 <= i < objs@.len() {
                        CtxModel::Table(ctx_of_values(objs@[i]))
                    } else {
                        CtxModel::Truth(false)
                    },
            ),
        ),
    }
}

pub open spec fn ctx_of_values(fv: FieldValues) -> Seq<(Seq<char>, CtxModel)>
    decreases fv,
{
    Seq::new(
        fv.pairs@.len(),
        |j: int|
            if 0 <= j < fv.pairs@.len() {
                (fv.pairs@[j].0@, ctx_of_value(fv.pairs@[j].1))
            } else {
                (Seq::empty(), CtxModel::Truth(false))
            },
    )
}

/// Converts one field value, or reports that it cannot convert.  The
/// empty-markdown clause carries the converter's promise that an empty
/// source renders to empty HTML — the zero representation of a markdown
/// field; it lives here because facts about `html_of` reach proofs only
/// through this call.
#[verifier::loop_isolation(false)]
pub fn value_to_ctx(v: &FieldValue) -> (r: Option<CtxValue>)
    ensures
        match r {
            Some(c) => value_convertible(*v) && ctx_model(c) == ctx_of_value(*v),
            None => !value_convertible(*v),
        },
        (*v matches FieldValue::Markdown(m) && m@.len() == 0) ==> (r matches Some(c) && ctx_model(
            c,
        ) == CtxModel::Text(Seq::<char>::empty())),
    decreases *v,
{
    match v {
        FieldValue::String(s) => Some(CtxValue::Text(s.clone())),
        FieldValue::Markdown(s) => Some(CtxValue::Text(markdown_to_html(s.as_str()))),
        FieldValue::Number(s) => {
            if is_number_lit_exec(s.as_str()) {
                Some(CtxValue::Num(s.clone()))
            } else {
                None
            }
        },
        FieldValue::Boolean(b) => Some(CtxValue::Truth(*b)),
        FieldValue::Date(d) => {
            if d.is_wf() {
                Some(CtxValue::Text(d.display_text()))
            } else {
                None
            }
        },
        FieldValue::Objects(objs) => {
            let mut items: Vec<CtxValue> = Vec::new();
            let n = objs.len();
            let mut i: usize = 0;
            while i < n
                invariant
                    i <= n,
                    n == objs@.len(),
                    items@.len() == i,
                    forall|k: int|
                        0 <= k < i ==> values_convertible(#[trigger] objs@[k]) && ctx_model(
                            items@[k],
                        ) == CtxModel::Table(ctx_of_values(objs@[k])),
                decreases n - i,
            {
                proof {
                    assert(*v == FieldValue::Objects(*objs));
                    assert(decreases_to!(FieldValue::Objects(*objs) => *objs));
                    assert(decreases_to!(*objs => objs@));
                    assert(decreases_to!(objs@ => objs@[i as int]));
                }
                match values_to_ctx(&objs[i]) {
                    Some(pairs) => {
                        let t = CtxValue::Table(pairs);
                        proof {
                            assert(ctx_model(t)->Table_0 =~= ctx_of_values(objs@[i as int]));
                            assert(ctx_model(t) =~= CtxModel::Table(
                                ctx_of_values(objs@[i as int]),
                            ));
                        }
                        items.push(t);
                    },
                    None => {
                        proof {
                            assert(!values_convertible(objs@[i as int]));
                        }
                        return None;
                    },
                }
                i += 1;
            }
            let out = CtxValue::List(items);
            proof {
                assert(ctx_model(out) is List);
                assert(ctx_model(out)->List_0 =~= ctx_of_value(*v)->List_0);
                assert(ctx_model(out) =~= ctx_of_value(*v));
            }
            Some(out)
        },
    }
}

/// Converts every field of one record, or reports the first failure.
#[verifier::loop_isolation(false)]
pub fn values_to_ctx(fv: &FieldValues) -> (r: Option<Vec<(String, CtxValue)>>)
    ensures
        match r {
            Some(pairs) => values_convertible(*fv) && pairs_model(pairs@) == ctx_of_values(*fv),
            None => !values_convertible(*fv),
        },
    decreases *fv,
{
    let mut pairs: Vec<(String, CtxValue)> = Vec::new();
    let n = fv.pairs.len();
    let mut j: usize = 0;
    while j < n
        invariant
            j <= n,
            n == fv.pairs@.len(),
            pairs@.len() == j,
            forall|k: int|
                0 <= k < j ==> value_convertible((#[trigger] fv.pairs@[k]).1) && pairs_model(
                    pairs@,
                )[k] == (fv.pairs@[k].0@, ctx_of_value(fv.pairs@[k].1)),
        decreases n - j,
    {
        match value_to_ctx(&fv.pairs[j].1) {
            Some(c) => {
                pairs.push((fv.pairs[j].0.clone(), c));
            },
            None => {
                return None;
            },
        }
        j += 1;
    }
    proof {
        assert(pairs_model(pairs@) =~= ctx_of_values(*fv));
    }
    Some(pairs)
}

/// The native representation of one content object: its converted field
/// values with the schema name, rank and output path injected under the
/// reserved metadata keys.
pub open spec fn ctx_of_object(o: Object) -> Seq<(Seq<char>, CtxModel)> {
    upd_assoc(
        upd_assoc(
            upd_assoc(ctx_of_values(o.values), "object_name"@, CtxModel::Text(o.object_name@)),
            "order"@,
            CtxModel::Num(dec_int(o.order as int)),
        ),
        "path"@,
        CtxModel::Text(o.path@),
    )
}

/// Replaces the context value of the same key, or appends.
fn upd_ctx_pair(v: &mut Vec<(String, CtxValue)>, key: String, val: CtxValue)
    ensures
        pairs_model(final(v)@) =~= upd_assoc(pairs_model(old(v)@), key@, ctx_model(val)),
{
    let ghost k = key@;
    let ghost m = ctx_model(val);
    let n = v.len();
    let mut j: usize = 0;
    while j < n
        invariant
            j <= n,
            n == v@.len(),
            v@ == old(v)@,
            forall|i: int| 0 <= i < j ==> (#[trigger] pairs_model(v@)[i]).0 != k,
            k == key@,
            m == ctx_model(val),
        decreases n - j,
    {
        if crate::text::str_eq(v[j].0.as_str(), key.as_str()) {
            proof {
                crate::object_definition::lemma_upd_assoc_found(pairs_model(v@), k, m, j as int);
            }
            v.remove(j);
            v.insert(j, (key, val));
            proof {
                assert(pairs_model(v@) =~= pairs_model(old(v)@).update(j as int, (k, m)));
            }
            return ;
        }
        j += 1;
    }
    proof {
        crate::object_definition::lemma_upd_assoc_absent(pairs_model(v@), k, m);
    }
    v.push((key, val));
    proof {
        assert(pairs_model(v@) =~= pairs_model(old(v)@).push((k, m)));
    }
}

/// Converts one object to its native table, with the three metadata keys
/// injected.
pub fn object_to_ctx(o: &Object) -> (r: Option<Vec<(String, CtxValue)>>)
    ensures
        match r {
            Some(pairs) => values_convertible(o.values) && pairs_model(pairs@) == ctx_of_object(*o),
            None => !values_convertible(o.values),
        },
{
    match values_to_ctx(&o.values) {
        None => None,
        Some(mut pairs) => {
            upd_ctx_pair(&mut pairs, "object_name".to_owned(), CtxValue::Text(o.object_name.clone()));
            upd_ctx_pair(&mut pairs, "order".to_owned(), CtxValue::Num(i64_to_string(o.order)));
            upd_ctx_pair(&mut pairs, "path".to_owned(), CtxValue::Text(o.path.clone()));
            Some(pairs)
        },
    }
}

// --- JSON serialization -------------------------------------------------

/// The escape of one character inside a JSON string.
pub open spec fn json_esc_char(c: char) -> Seq<char> {
    if c == '"' {
        seq!['\\', '"']
    } else if c == '\\' {
        seq!['\\', '\\']
    } else if c == '\n' {
        seq!['\\', 'n']
    } else if c == '\r' {
        seq!['\\', 'r']
    } else if c == '\t' {
        seq!['\\', 't']
    } else if (c as u32) < 32 {
        seq!['\\', 'u', '0', '0', digit_char(((c as u32) / 16) as int), digit_char(
            ((c as u32) % 16) as int,
        )]
    } else {
        seq![c]
    }
}

pub open spec fn json_str_body(s: Seq<char>) -> Seq<char>
    decreases s.len(),
{
    if s.len() == 0 {
        Seq::empty()
    } else {
        json_str_body(s.drop_last()).add(json_esc_char(s.last()))
    }
}

pub open spec fn json_string(s: Seq<char>) -> Seq<char> {
    seq!['"'].add(json_str_body(s)).add(seq!['"'])
}

/// The JSON text of a context value.  A `Num` is its literal unquoted;
/// the conversion above admits only well-formed literals.
pub open spec fn json_of(m: CtxModel) -> Seq<char>
    decreases m,
{
    match m {
        CtxModel::Text(s) => json_string(s),
        CtxModel::Num(s) => s,
        CtxModel::Truth(b) => if b {
            "true"@
        } else {
            "false"@
        },
        CtxModel::List(items) => seq!['['].add(json_list_body(items)).add(seq![']']),
        CtxModel::Table(pairs) => seq!['{'].add(json_table_body(pairs)).add(seq!['}']),
    }
}

pub open spec fn json_list_body(items: Seq<CtxModel>) -> Seq<char>
    decreases items,
{
    if items.len() == 0 {
        Seq::empty()
    } else if items.len() == 1 {
        json_of(items[0])
    } else {
        json_list_body(items.drop_last()).add(seq![',']).add(json_of(items.last()))
    }
}

pub open spec fn json_table_body(pairs: Seq<(Seq<char>, CtxModel)>) -> Seq<char>
    decreases pairs,
{
    if pairs.len() == 0 {
        Seq::empty()
    } else if pairs.len() == 1 {
        json_string(pairs[0].0).add(seq![':']).add(json_of(pairs[0].1))
    } else {
        json_table_body(pairs.drop_last()).add(seq![',']).add(
            json_string(pairs.last().0).add(seq![':']).add(json_of(pairs.last().1)),
        )
    }
}

/// Appends the JSON string form of `s`, quotes and escapes included.
#[verifier::loop_isolation(false)]
fn write_json_string(s: &str, out: &mut String)
    ensures
        final(out)@ == old(out)@ + json_string(s@),
{
    out.append("\"");
    proof {
        reveal_strlit("\"");
        assert(out@ =~= old(out)@ + seq!['"']);
    }
    let ghost base = out@;
    let n = s.unicode_len();
    let mut i: usize = 0;
    proof {
        assert(s@.subrange(0, 0) =~= Seq::<char>::empty());
        assert(out@ =~= base + json_str_body(s@.subrange(0, 0)));
    }
    while i < n
        invariant
            i <= n,
            n == s@.len(),
            out@ == base + json_str_body(s@.subrange(0, i as int)),
        decreases n - i,
    {
        proof {
            assert(s@.subrange(0, i as int + 1).drop_last() =~= s@.subrange(0, i as int));
            assert(s@.subrange(0, i as int + 1).last() == s@[i as int]);
        }
        let c = s.get_char(i);
        if c == '"' {
            out.append("\\\"");
            proof {
                reveal_strlit("\\\"");
                assert("\\\""@ =~= json_esc_char(c));
            }
        } else if c == '\\' {
            out.append("\\\\");
            proof {
                reveal_strlit("\\\\");
                assert("\\\\"@ =~= json_esc_char(c));
            }
        } else if c == '\n' {
            out.append("\\n");
            proof {
                reveal_strlit("\\n");
                assert("\\n"@ =~= json_esc_char(c));
            }
        } else if c == '\r' {
            out.append("\\r");
            proof {
                reveal_strlit("\\r");
                assert("\\r"@ =~= json_esc_char(c));
            }
        } else if c == '\t' {
            out.append("\\t");
            proof {
                reveal_strlit("\\t");
                assert("\\t"@ =~= json_esc_char(c));
            }
        } else if (c as u32) < 32 {
            out.append("\\u00");
            out.append(digit_str(((c as u32) / 16) as u64));
            out.append(digit_str(((c as u32) % 16) as u64));
            proof {
                reveal_strlit("\\u00");
                assert("\\u00"@ + seq![digit_char(((c as u32) / 16) as int)] + seq![
                    digit_char(((c as u32) % 16) as int),
                ] =~= json_esc_char(c));
            }
        } else {
            let piece = s.substring_char(i, i + 1);
            out.append(piece);
            proof {
                assert(piece@ =~= json_esc_char(c));
            }
        }
        proof {
            assert(out@ =~= base + json_str_body(s@.subrange(0, i as int + 1)));
        }
        i += 1;
    }
    proof {
        assert(s@.subrange(0, n as int) =~= s@);
    }
    out.append("\"");
    proof {
        reveal_strlit("\"");
        assert(out@ =~= old(out)@ + json_string(s@));
    }
}

/// Appends the JSON text of a context value.
#[verifier::loop_isolation(false)]
pub fn write_json(v: &CtxValue, out: &mut String)
    ensures
        final(out)@ == old(out)@ + json_of(ctx_model(*v)),
    decreases *v,
{
    match v {
        CtxValue::Text(s) => {
            write_json_string(s.as_str(), out);
        },
        CtxValue::Num(s) => {
            out.append(s.as_str());
        },
        CtxValue::Truth(b) => {
            if *b {
                out.append("true");
            } else {
                out.append("false");
            }
        },
        CtxValue::List(items) => {
            out.append("[");
            proof {
                reveal_strlit("[");
            }
            let ghost base = out@;
            let n = items.len();
            let mut i: usize = 0;
            proof {
                assert(ctx_model(*v)->List_0.subrange(0, 0) =~= Seq::<CtxModel>::empty());
                assert(out@ =~= base + json_list_body(ctx_model(*v)->List_0.subrange(0, 0)));
            }
            while i < n
                invariant
                    i <= n,
                    n == items@.len(),
                    out@ == base + json_list_body(ctx_model(*v)->List_0.subrange(0, i as int)),
                decreases n - i,
            {
                let ghost ms = ctx_model(*v)->List_0;
                proof {
                    assert(ms.subrange(0, i as int + 1).drop_last() =~= ms.subrange(0, i as int));
                    assert(ms.subrange(0, i as int + 1).last() == ms[i as int]);
                    assert(ms[i as int] == ctx_model(items@[i as int]));
                }
                if i > 0 {
                    out.append(",");
                    proof {
                        reveal_strlit(",");
                    }
                }
                write_json(&items[i], out);
                proof {
                    assert(out@ =~= base + json_list_body(ms.subrange(0, i as int + 1)));
                }
                i += 1;
            }
            out.append("]");
            proof {
                reveal_strlit("]");
                assert(ctx_model(*v)->List_0.subrange(0, n as int) =~= ctx_model(*v)->List_0);
                assert(out@ =~= old(out)@ + json_of(ctx_model(*v)));
            }
        },
        CtxValue::Table(pairs) => {
            out.append("{");
            proof {
                reveal_strlit("{");
            }
            let ghost base = out@;
            let n = pairs.len();
            let mut i: usize = 0;
            proof {
                assert(ctx_model(*v)->Table_0.subrange(0, 0) =~= Seq::<
                    (Seq<char>, CtxModel),
                >::empty());
                assert(out@ =~= base + json_table_body(ctx_model(*v)->Table_0.subrange(0, 0)));
            }
            while i < n
                invariant
                    i <= n,
                    n == pairs@.len(),
                    out@ == base + json_table_body(ctx_model(*v)->Table_0.subrange(0, i as int)),
                decreases n - i,
            {
                let ghost ms = ctx_model(*v)->Table_0;
                proof {
                    assert(ms.subrange(0, i as int + 1).drop_last() =~= ms.subrange(0, i as int));
                    assert(ms.subrange(0, i as int + 1).last() == ms[i as int]);
                    assert(ms[i as int] == (pairs@[i as int].0@, ctx_model(pairs@[i as int].1)));
                }
                if i > 0 {
                    out.append(",");
                    proof {
                        reveal_strlit(",");
                    }
                }
                write_json_string(pairs[i].0.as_str(), out);
                out.append(":");
                proof {
                    reveal_strlit(":");
                }
                write_json(&pairs[i].1, out);
                proof {
                    assert(out@ =~= base + json_table_body(ms.subrange(0, i as int + 1)));
                }
                i += 1;
            }
            out.append("}");
            proof {
                reveal_strlit("}");
                assert(ctx_model(*v)->Table_0.subrange(0, n as int) =~= ctx_model(*v)->Table_0);
                assert(out@ =~= old(out)@ + json_of(ctx_model(*v)));
            }
        },
    }
}

/// Default values round-trip: the zero value of every field type
/// converts to the native context without error, and the scalar kinds
/// serialize to their defined zero representation — the empty string,
/// the number zero, and false.  The markdown zero's empty serialization
/// is stated on `value_to_ctx` instead: it rests on the markdown
/// converter's empty-input clause, which reaches proofs only at the
/// call.
pub proof fn lemma_default_value_round_trip(t: FieldType, v: FieldValue)
    requires
        is_default_of(t, v),
    ensures
        value_convertible(v),
        t is String ==> json_of(ctx_of_value(v)) == seq!['"', '"'],
        t is Number ==> json_of(ctx_of_value(v)) == "0"@,
        t is Boolean ==> json_of(ctx_of_value(v)) == "false"@,
{
    reveal_strlit("0");
    match t {
        FieldType::String => {
            let s = v->String_0;
            assert(json_str_body(s@) =~= Seq::<char>::empty());
            assert(json_of(ctx_of_value(v)) =~= seq!['"', '"']);
        },
        FieldType::Number => {
            let s = v->Number_0;
            assert(s@ =~= seq!['0']);
            assert(crate::text::is_digit('0'));
            reveal_with_fuel(crate::text::digit_run_end, 3);
            assert(crate::text::digit_run_end(s@, 0) == 1);
            assert(is_number_lit(s@));
        },
        FieldType::Boolean => {
        },
        FieldType::Date => {
        },
        FieldType::Markdown => {
        },
    }
}

/// The JSON text of a whole context value.
pub fn to_json(v: &CtxValue) -> (r: String)
    ensures
        r@ == json_of(ctx_model(*v)),
{
    let mut out = String::new();
    write_json(v, &mut out);
    proof {
        assert(out@ =~= json_of(ctx_model(*v)));
    }
    out
}

} // verus!
