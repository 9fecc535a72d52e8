//! The rendering pipeline: one page is either a plain template body or a
//! schema-bound template paired with one content object.  Rendering
//! assembles the engine context — the `objects` index and `page` globals,
//! and for a bound page the enriched object under its schema's name,
//! which the globals never overwrite — serializes it to JSON, and hands
//! template and context to the Liquid engine.
use crate::context::{
    ctx_model, ctx_of_object, pairs_model, to_json, values_convertible, CtxModel, CtxValue,
};
use crate::object::Object;
use crate::object_definition::ObjectDefinition;
use crate::text::{is_digit, str_eq};
use vstd::prelude::*;
use vstd::string::StrSliceExecFns;

verus! {

broadcast use vstd::seq::group_seq_axioms, vstd::std_specs::vec::group_vec_axioms;

// --- template type ------------------------------------------------------

/// The output flavor of a template, from its file name's inner
/// extension.
#[derive(Debug, PartialEq)]
pub enum TemplateType {
    Default,
    Html,
    Css,
    Csv,
    Json,
    Rss,
    Unknown(String),
}

/// ASCII lowercasing of one character.  Case folding here is ASCII
/// only, a deliberate narrowing of full Unicode lowercasing (whose
/// tables are beyond verified code); it is exact for every built-in
/// extension name.
pub open spec fn lower_char(c: char) -> char {
    if c == 'A' {
        'a'
    } else if c == 'B' {
        'b'
    } else if c == 'C' {
        'c'
    } else if c == 'D' {
        'd'
    } else if c == 'E' {
        'e'
    } else if c == 'F' {
        'f'
    } else if c == 'G' {
        'g'
    } else if c == 'H' {
        'h'
    } else if c == 'I' {
        'i'
    } else if c == 'J' {
        'j'
    } else if c == 'K' {
        'k'
    } else if c == 'L' {
        'l'
    } else if c == 'M' {
        'm'
    } else if c == 'N' {
        'n'
    } else if c == 'O' {
        'o'
    } else if c == 'P' {
        'p'
    } else if c == 'Q' {
        'q'
    } else if c == 'R' {
        'r'
    } else if c == 'S' {
        's'
    } else if c == 'T' {
        't'
    } else if c == 'U' {
        'u'
    } else if c == 'V' {
        'v'
    } else if c == 'W' {
        'w'
    } else if c == 'X' {
        'x'
    } else if c == 'Y' {
        'y'
    } else if c == 'Z' {
        'z'
    } else {
        c
    }
}

pub open spec fn lower_seq(s: Seq<char>) -> Seq<char> {
    s.map_values(|c: char| lower_char(c))
}

fn lower_char_exec(c: char) -> (r: char)
    ensures
        r == lower_char(c),
{
    match c {
        'A' => 'a',
        'B' => 'b',
        'C' => 'c',
        'D' => 'd',
        'E' => 'e',
        'F' => 'f',
        'G' => 'g',
        'H' => 'h',
        'I' => 'i',
        'J' => 'j',
        'K' => 'k',
        'L' => 'l',
        'M' => 'm',
        'N' => 'n',
        'O' => 'o',
        'P' => 'p',
        'Q' => 'q',
        'R' => 'r',
        'S' => 's',
        'T' => 't',
        'U' => 'u',
        'V' => 'v',
        'W' => 'w',
        'X' => 'x',
        'Y' => 'y',
        'Z' => 'z',
        other => other,
    }
}

/// ASCII lowercasing of a whole string.
#[verifier::loop_isolation(false)]
fn to_ascii_lower(s: &str) -> (r: String)
    ensures
        r@ == lower_seq(s@),
{
    let n = s.unicode_len();
    let mut out = String::new();
    let mut i: usize = 0;
    proof {
        assert(out@ =~= lower_seq(s@.subrange(0, 0)));
    }
    while i < n
        invariant
            i <= n,
            n == s@.len(),
            out@ == lower_seq(s@.subrange(0, i as int)),
        decreases n - i,
    {
        let c = lower_char_exec(s.get_char(i));
        let one = char_to_string(c);
        out.append(one.as_str());
        proof {
            assert(out@ =~= lower_seq(s@.subrange(0, i as int + 1)));
        }
        i += 1;
    }
    proof {
        assert(s@.subrange(0, n as int) =~= s@);
    }
    out
}

/// The relation between an extension's text and the template type it
/// denotes, after ASCII lowercasing.
pub open spec fn from_ext_rel(r: TemplateType, ext: Seq<char>) -> bool {
    let l = lower_seq(ext);
    if l == "html"@ {
        r == TemplateType::Html
    } else if l == "css"@ {
        r == TemplateType::Css
    } else if l == "csv"@ {
        r == TemplateType::Csv
    } else if l == "json"@ {
        r == TemplateType::Json
    } else if l == "rss"@ {
        r == TemplateType::Rss
    } else if l == Seq::<char>::empty() {
        r == TemplateType::Default
    } else {
        r matches TemplateType::Unknown(u) && u@ == l
    }
}

/// The file extension each template type renders to.
pub open spec fn ext_text(t: TemplateType) -> Seq<char> {
    match t {
        TemplateType::Default => "html"@,
        TemplateType::Html => "html"@,
        TemplateType::Css => "css"@,
        TemplateType::Csv => "css"@,
        TemplateType::Json => "json"@,
        TemplateType::Rss => "rss"@,
        TemplateType::Unknown(u) => u@,
    }
}

impl Default for TemplateType {
    fn default() -> (r: Self)
        ensures
            r == TemplateType::Default,
    {
        TemplateType::Default
    }
}

impl TemplateType {
    /// Classifies an inner extension, case-insensitively.
    pub fn from_ext(ext: &str) -> (r: Self)
        ensures
            from_ext_rel(r, ext@),
    {
        let low = to_ascii_lower(ext);
        if str_eq(low.as_str(), "html") {
            TemplateType::Html
        } else if str_eq(low.as_str(), "css") {
            TemplateType::Css
        } else if str_eq(low.as_str(), "csv") {
            TemplateType::Csv
        } else if str_eq(low.as_str(), "json") {
            TemplateType::Json
        } else if str_eq(low.as_str(), "rss") {
            TemplateType::Rss
        } else if low.unicode_len() == 0 {
            proof {
                assert(low@ =~= Seq::<char>::empty());
            }
            TemplateType::Default
        } else {
            TemplateType::Unknown(low)
        }
    }

    /// The extension of files this template type renders to.
    pub fn extension(&self) -> (r: &str)
        ensures
            r@ == ext_text(*self),
    {
        match self {
            TemplateType::Default => "html",
            TemplateType::Html => "html",
            TemplateType::Css => "css",
            TemplateType::Csv => "css",
            TemplateType::Json => "json",
            TemplateType::Rss => "rss",
            TemplateType::Unknown(u) => u.as_str(),
        }
    }
}

// --- template file names ------------------------------------------------

/// A word character of a template file name's inner extension.  This is
/// the ASCII word class — digits, letters, underscore.  The file-name
/// pattern's original word class is Unicode-wide; narrowing it to ASCII
/// is a deliberate deviation (Unicode word tables are beyond what can be
/// written in verified code), so a non-ASCII extension segment is not
/// recognized as an extension here.
pub open spec fn is_word_char(c: char) -> bool {
    is_digit(c) || (('a' as u32) <= (c as u32) <= ('z' as u32)) || (('A' as u32) <= (c as u32) <= (
    'Z' as u32)) || c == '_'
}

fn is_word_char_exec(c: char) -> (r: bool)
    ensures
        r == is_word_char(c),
{
    let v = c as u32;
    (('0' as u32) <= v && v <= ('9' as u32)) || (('a' as u32) <= v && v <= ('z' as u32)) || ((
    'A' as u32) <= v && v <= ('Z' as u32)) || c == '_'
}

/// The literal `.liquid` stands at position `p`.
pub open spec fn liquid_at(s: Seq<char>, p: int) -> bool {
    0 <= p && p + 7 <= s.len() && s.subrange(p, p + 7) == ".liquid"@
}

/// A dot, a nonempty run of word characters, then `.liquid` at `r`.
pub open spec fn ext_match_at(s: Seq<char>, p: int, r: int) -> bool {
    &&& 0 <= p
    &&& p + 1 < r
    &&& s[p] == '.'
    &&& forall|i: int| p + 1 <= i < r ==> is_word_char(s[i])
    &&& liquid_at(s, r)
}

/// The base name may hold any character but a newline, which the
/// file-name pattern's `.` never matches.
pub open spec fn base_ok(s: Seq<char>, p: int) -> bool {
    forall|i: int| 0 <= i < p ==> s[i] != '\n'
}

/// The template-name pattern matches with the base name ending at `p`:
/// a newline-free base, then either `.liquid` directly or one dotted
/// extension and `.liquid`.
pub open spec fn match_at(s: Seq<char>, p: int) -> bool {
    base_ok(s, p) && (liquid_at(s, p) || exists|r: int| ext_match_at(s, p, r))
}

#[verifier::loop_isolation(false)]
fn liquid_at_exec(s: &str, p: usize) -> (r: bool)
    requires
        p <= s@.len(),
    ensures
        r == liquid_at(s@, p as int),
{
    let n = s.unicode_len();
    if n < 7 || p > n - 7 {
        return false;
    }
    let ok = s.get_char(p) == '.' && s.get_char(p + 1) == 'l' && s.get_char(p + 2) == 'i'
        && s.get_char(p + 3) == 'q' && s.get_char(p + 4) == 'u' && s.get_char(p + 5) == 'i'
        && s.get_char(p + 6) == 'd';
    proof {
        reveal_strlit(".liquid");
        if ok {
            assert(s@.subrange(p as int, p as int + 7) =~= ".liquid"@);
        } else {
            assert(s@.subrange(p as int, p as int + 7) != ".liquid"@) by {
                let sub = s@.subrange(p as int, p as int + 7);
                if sub == ".liquid"@ {
                    assert(sub[0] == '.' && sub[1] == 'l' && sub[2] == 'i' && sub[3] == 'q'
                        && sub[4] == 'u' && sub[5] == 'i' && sub[6] == 'd');
                }
            }
        }
    }
    ok
}

impl TemplateType {
    /// Splits a template file name into its base name and type: the
    /// earliest position where a newline-free base can end with an
    /// optional dotted extension and the `.liquid` suffix, the extension
    /// variant preferred.  Anything after the suffix is ignored, as the
    /// file-name pattern does.  Extensions are recognized over ASCII
    /// word characters only — see `is_word_char`.
    #[verifier::loop_isolation(false)]
    pub fn parse_name<'a>(name: &'a str) -> (r: Option<(&'a str, TemplateType)>)
        ensures
            match r {
                Some((base, t)) => exists|p: int|
                    {
                        &&& 1 <= p
                        &&& #[trigger] match_at(name@, p)
                        &&& forall|q: int| 1 <= q < p ==> !match_at(name@, q)
                        &&& base@ == name@.subrange(0, p)
                        &&& forall|r2: int|
                            ext_match_at(name@, p, r2) ==> from_ext_rel(
                                t,
                                name@.subrange(p + 1, r2),
                            )
                        &&& (!(exists|r2: int| ext_match_at(name@, p, r2)) ==> t
                            == TemplateType::Default)
                    },
                None => forall|p: int| 1 <= p ==> !match_at(name@, p),
            },
    {
        let n = name.unicode_len();
        let ghost sv = name@;
        proof {
            reveal_strlit(".liquid");
            assert(!is_word_char('.'));
        }
        let mut p: usize = 1;
        while p < n
            invariant
                1 <= p,
                n == sv.len(),
                forall|q: int| 1 <= q < p ==> !match_at(sv, q),
                forall|i: int| 0 <= i < p - 1 ==> sv[i] != '\n',
            decreases n - p,
        {
            if name.get_char(p - 1) == '\n' {
                proof {
                    assert forall|q: int| 1 <= q implies !match_at(sv, q) by {
                        if q >= p {
                            assert(0 <= p - 1 < q && sv[p as int - 1] == '\n');
                            assert(!base_ok(sv, q));
                        }
                    }
                }
                return None;
            }
            proof {
                assert forall|i: int| 0 <= i < p as int implies sv[i] != '\n' by {}
                assert(base_ok(sv, p as int));
            }
            if name.get_char(p) == '.' {
                let mut q: usize = p + 1;
                while q < n && is_word_char_exec(name.get_char(q))
                    invariant
                        p + 1 <= q <= n,
                        forall|i: int| p + 1 <= i < q ==> is_word_char(sv[i]),
                    decreases n - q,
                {
                    q += 1;
                }
                // the run is maximal: q == n or sv[q] is not a word character
                if q > p + 1 && liquid_at_exec(name, q) {
                    proof {
                        assert(ext_match_at(sv, p as int, q as int));
                        assert(match_at(sv, p as int));
                        assert forall|r2: int| ext_match_at(sv, p as int, r2) implies r2
                            == q as int by {
                            if r2 < q {
                                assert(liquid_at(sv, r2));
                                assert(sv[r2] == ".liquid"@[0]);
                                assert(is_word_char(sv[r2]));
                            }
                            if r2 > q {
                                if q < n {
                                    assert(!is_word_char(sv[q as int]));
                                    assert(is_word_char(sv[q as int]));
                                } else {
                                    assert(r2 + 7 <= n);
                                }
                            }
                        }
                    }
                    let base = name.substring_char(0, p);
                    let ext = name.substring_char(p + 1, q);
                    proof {
                        assert(ext@ =~= sv.subrange(p as int + 1, q as int));
                    }
                    let t = TemplateType::from_ext(ext);
                    return Some((base, t));
                }
                proof {
                    assert forall|r2: int| !ext_match_at(sv, p as int, r2) by {
                        if ext_match_at(sv, p as int, r2) {
                            if r2 < q {
                                assert(liquid_at(sv, r2));
                                assert(sv[r2] == ".liquid"@[0]);
                                assert(is_word_char(sv[r2]));
                            } else if r2 == q {
                                assert(q > p + 1 && liquid_at(sv, q as int));
                            } else {
                                if q < n {
                                    assert(!is_word_char(sv[q as int]));
                                    assert(is_word_char(sv[q as int]));
                                } else {
                                    assert(r2 + 7 <= n);
                                }
                            }
                        }
                    }
                }
                if liquid_at_exec(name, p) {
                    let base = name.substring_char(0, p);
                    proof {
                        assert(match_at(sv, p as int));
                    }
                    return Some((base, TemplateType::Default));
                }
                proof {
                    assert(!match_at(sv, p as int));
                }
            } else {
                proof {
                    assert forall|r2: int| !ext_match_at(sv, p as int, r2) by {
                        if ext_match_at(sv, p as int, r2) {
                            assert(sv[p as int] == '.');
                        }
                    }
                    assert(!liquid_at(sv, p as int)) by {
                        if liquid_at(sv, p as int) {
                            assert(sv[p as int] == ".liquid"@[0]);
                        }
                    }
                    assert(!match_at(sv, p as int));
                }
            }
            p += 1;
        }
        proof {
            assert forall|p2: int| 1 <= p2 implies !match_at(sv, p2) by {
                if p2 < n {
                } else {
                    assert(!liquid_at(sv, p2));
                    assert forall|r2: int| !ext_match_at(sv, p2, r2) by {
                        if ext_match_at(sv, p2, r2) {
                            assert(liquid_at(sv, r2));
                            assert(r2 + 7 <= n && r2 > p2);
                        }
                    }
                }
            }
        }
        None
    }
}

// --- the object index and page contexts ---------------------------------

/// The cross-site object index: for each schema name, the ordered
/// objects of that schema.
#[derive(Debug)]
pub struct ObjectIndex {
    pub entries: Vec<(String, Vec<Object>)>,
}

impl ObjectIndex {
    pub fn new() -> (r: ObjectIndex)
        ensures
            r.entries@ =~= Seq::<(String, Vec<Object>)>::empty(),
    {
        ObjectIndex { entries: Vec::new() }
    }

    pub fn insert(&mut self, name: String, objects: Vec<Object>)
        ensures
            final(self).entries@ == old(self).entries@.push((name, objects)),
    {
        self.entries.push((name, objects));
    }
}

/// The native value of one schema's object list.
pub open spec fn group_model(objs: Seq<Object>) -> CtxModel {
    CtxModel::List(
        Seq::new(
            objs.len(),
            |i: int|
                if 0 <= i < objs.len() {
                    CtxModel::Table(ctx_of_object(objs[i]))
                } else {
                    CtxModel::Truth(false)
                },
        ),
    )
}

pub open spec fn group_convertible(objs: Seq<Object>) -> bool {
    forall|i: int| 0 <= i < objs.len() ==> values_convertible((#[trigger] objs[i]).values)
}

/// The `objects` global: schema name to converted object list.
pub open spec fn index_model(entries: Seq<(String, Vec<Object>)>) -> Seq<(Seq<char>, CtxModel)> {
    Seq::new(
        entries.len(),
        |i: int|
            if 0 <= i < entries.len() {
                (entries[i].0@, group_model(entries[i].1@))
            } else {
                (Seq::empty(), CtxModel::Truth(false))
            },
    )
}

pub open spec fn index_convertible(entries: Seq<(String, Vec<Object>)>) -> bool {
    forall|i: int| 0 <= i < entries.len() ==> group_convertible((#[trigger] entries[i]).1@)
}

/// The globals of every render: the `objects` index and the `page` name.
pub open spec fn globals_model(page_name: Seq<char>, entries: Seq<(String, Vec<Object>)>) -> Seq<
    (Seq<char>, CtxModel),
> {
    seq![
        ("objects"@, CtxModel::Table(index_model(entries))),
        ("page"@, CtxModel::Text(page_name)),
    ]
}

/// The context of a schema-bound page: the enriched object under the
/// schema's name first, then each global whose key does not collide with
/// it — the globals never overwrite the schema-named key.
pub open spec fn bound_pairs(
    schema: Seq<char>,
    o: Object,
    page_name: Seq<char>,
    entries: Seq<(String, Vec<Object>)>,
) -> Seq<(Seq<char>, CtxModel)> {
    seq![(schema, CtxModel::Table(ctx_of_object(o)))].add(
        if schema == "objects"@ {
            Seq::empty()
        } else {
            seq![("objects"@, CtxModel::Table(index_model(entries)))]
        },
    ).add(
        if schema == "page"@ {
            Seq::empty()
        } else {
            seq![("page"@, CtxModel::Text(page_name))]
        },
    )
}

/// The schema-named key is reserved in a bound page's context: whatever
/// the page and index look like — even when a schema is named `objects`
/// or `page` — looking its name up always yields the enriched object,
/// never a global.
pub proof fn lemma_schema_key_never_clobbered(
    schema: Seq<char>,
    o: Object,
    page_name: Seq<char>,
    entries: Seq<(String, Vec<Object>)>,
)
    ensures
        crate::object_definition::lookup_assoc(bound_pairs(schema, o, page_name, entries), schema)
            == Some(CtxModel::Table(ctx_of_object(o))),
{
    let bp = bound_pairs(schema, o, page_name, entries);
    assert(bp[0] == (schema, CtxModel::Table(ctx_of_object(o))));
    crate::object_definition::lemma_lookup_assoc_found(bp, schema, 0);
}

/// Converts the whole object index to context pairs.
#[verifier::loop_isolation(false)]
fn index_to_ctx(objects: &ObjectIndex) -> (r: Option<Vec<(String, CtxValue)>>)
    ensures
        match r {
            Some(pairs) => index_convertible(objects.entries@) && pairs_model(pairs@)
                == index_model(objects.entries@),
            None => !index_convertible(objects.entries@),
        },
{
    let mut groups: Vec<(String, CtxValue)> = Vec::new();
    let n = objects.entries.len();
    let mut i: usize = 0;
    while i < n
        invariant
            i <= n,
            n == objects.entries@.len(),
            groups@.len() == i,
            forall|k: int|
                0 <= k < i ==> group_convertible((#[trigger] objects.entries@[k]).1@)
                    && pairs_model(groups@)[k] == (
                objects.entries@[k].0@,
                group_model(objects.entries@[k].1@),
            ),
        decreases n - i,
    {
        let objs = &objects.entries[i].1;
        let mut items: Vec<CtxValue> = Vec::new();
        let m = objs.len();
        let mut j: usize = 0;
        while j < m
            invariant
                j <= m,
                m == objs@.len(),
                items@.len() == j,
                forall|k: int|
                    0 <= k < j ==> values_convertible((#[trigger] objs@[k]).values) && ctx_model(
                        items@[k],
                    ) == CtxModel::Table(ctx_of_object(objs@[k])),
            decreases m - j,
        {
            match crate::context::object_to_ctx(&objs[j]) {
                None => {
                    return None;
                },
                Some(opairs) => {
                    let t = CtxValue::Table(opairs);
                    proof {
                        assert(ctx_model(t)->Table_0 =~= ctx_of_object(objs@[j as int]));
                        assert(ctx_model(t) =~= CtxModel::Table(ctx_of_object(objs@[j as int])));
                    }
                    items.push(t);
                },
            }
            j += 1;
        }
        let g = CtxValue::List(items);
        proof {
            assert(ctx_model(g)->List_0 =~= group_model(objs@)->List_0);
            assert(ctx_model(g) =~= group_model(objs@));
        }
        groups.push((objects.entries[i].0.clone(), g));
        i += 1;
    }
    proof {
        assert(pairs_model(groups@) =~= index_model(objects.entries@));
    }
    Some(groups)
}

// --- pages --------------------------------------------------------------

/// A schema-bound template: the schema, the one target object, and the
/// template body to render them with.
#[derive(Debug)]
pub struct PageTemplate {
    pub definition: ObjectDefinition,
    pub object: Object,
    pub content: String,
    pub file_type: TemplateType,
}

#[derive(Debug)]
enum PageKind {
    Plain(String),
    Bound(PageTemplate),
}

/// One rendering request: a named page that is either a plain template
/// body or a schema-bound template with its target object.  The two
/// shapes are the only ones representable.
#[derive(Debug)]
pub struct Page {
    name: String,
    kind: PageKind,
    file_type: TemplateType,
}

/// Rendering errors, each carrying the page's name: the template failed
/// to parse, the template failed to evaluate, or a value could not
/// convert to the engine's native representation.
#[derive(Debug)]
pub enum RenderError {
    TemplateParse { page: String, message: String },
    TemplateRender { page: String, message: String },
    UnconvertibleValue { page: String },
}

/// The page a rendering error names.
pub open spec fn err_page(e: RenderError) -> Seq<char> {
    match e {
        RenderError::TemplateParse { page, message } => page@,
        RenderError::TemplateRender { page, message } => page@,
        RenderError::UnconvertibleValue { page } => page@,
    }
}

/// Outcome of one engine invocation, by failing stage.
enum LiquidOutcome {
    Rendered(String),
    BadContext(String),
    BadTemplate(String),
    BadRender(String),
}

/// Relies on liquid::ParserBuilder::with_stdlib, liquid::Parser::parse,
/// liquid::Template::render, and serde_json's deserialization of
/// liquid::Object, which builds the engine's native context from JSON
/// text.  The variant says which stage failed; nothing more is assumed
/// of the engine's output.
#[verifier::external_body]
fn liquid_apply(template_text: &str, context_json: &str) -> LiquidOutcome {
    let parser = match liquid::ParserBuilder::with_stdlib().build() {
        Ok(p) => p,
        Err(e) => return LiquidOutcome::BadTemplate(e.to_string()),
    };
    let globals: liquid::Object = match serde_json::from_str(context_json) {
        Ok(g) => g,
        Err(e) => return LiquidOutcome::BadContext(e.to_string()),
    };
    let template = match parser.parse(template_text) {
        Ok(t) => t,
        Err(e) => return LiquidOutcome::BadTemplate(e.to_string()),
    };
    template.render(&globals).map_or_else(|e| LiquidOutcome::BadRender(e.to_string()), LiquidOutcome::Rendered)
}

impl Page {
    /// The page's name, as the `page` global sees it.
    pub closed spec fn spec_name(&self) -> Seq<char> {
        self.name@
    }

    /// Whether the page is schema-bound.
    pub closed spec fn is_bound(&self) -> bool {
        self.kind is Bound
    }

    /// The template body that is rendered.
    pub closed spec fn body_model(&self) -> Seq<char> {
        match self.kind {
            PageKind::Plain(c) => c@,
            PageKind::Bound(t) => t.content@,
        }
    }

    pub closed spec fn spec_file_type(&self) -> TemplateType {
        self.file_type
    }

    /// Whether every value this page's render touches converts to the
    /// engine's native representation.
    pub closed spec fn convertible_spec(&self, entries: Seq<(String, Vec<Object>)>) -> bool {
        index_convertible(entries) && match self.kind {
            PageKind::Plain(c) => true,
            PageKind::Bound(t) => values_convertible(t.object.values),
        }
    }

    /// The context this page renders against.
    pub closed spec fn ctx_model_spec(&self, entries: Seq<(String, Vec<Object>)>) -> CtxModel {
        match self.kind {
            PageKind::Plain(c) => CtxModel::Table(globals_model(self.name@, entries)),
            PageKind::Bound(t) => CtxModel::Table(
                bound_pairs(t.definition.name@, t.object, self.name@, entries),
            ),
        }
    }

    /// A plain page: its own body is the template.
    pub fn new(name: String, content: String, file_type: TemplateType) -> (r: Page)
        ensures
            r.spec_name() == name@,
            !r.is_bound(),
            r.body_model() == content@,
            r.spec_file_type() == file_type,
            forall|entries: Seq<(String, Vec<Object>)>|
                #[trigger] r.ctx_model_spec(entries) == CtxModel::Table(
                    globals_model(name@, entries),
                ),
            forall|entries: Seq<(String, Vec<Object>)>|
                #[trigger] r.convertible_spec(entries) == index_convertible(entries),
    {
        Page { name, kind: PageKind::Plain(content), file_type }
    }

    /// A schema-bound page: renders `content` against one object of the
    /// given schema.
    pub fn new_with_template(
        name: String,
        definition: ObjectDefinition,
        object: Object,
        content: String,
        file_type: TemplateType,
    ) -> (r: Page)
        ensures
            r.spec_name() == name@,
            r.is_bound(),
            r.body_model() == content@,
            r.spec_file_type() == file_type,
            forall|entries: Seq<(String, Vec<Object>)>|
                #[trigger] r.ctx_model_spec(entries) == CtxModel::Table(
                    bound_pairs(definition.name@, object, name@, entries),
                ),
            forall|entries: Seq<(String, Vec<Object>)>|
                #[trigger] r.convertible_spec(entries) == (index_convertible(entries)
                    && values_convertible(object.values)),
    {
        let ft = file_type.clone();
        Page {
            name,
            kind: PageKind::Bound(
                PageTemplate { definition, object, content, file_type: file_type },
            ),
            file_type: ft,
        }
    }

    /// Assembles this page's rendering context: exactly
    /// `ctx_model_spec`, or nothing when a value cannot convert.
    pub fn render_context(&self, objects: &ObjectIndex) -> (r: Option<CtxValue>)
        ensures
            match r {
                Some(c) => self.convertible_spec(objects.entries@) && ctx_model(c)
                    == self.ctx_model_spec(objects.entries@),
                None => !self.convertible_spec(objects.entries@),
            },
    {
        let groups = match index_to_ctx(objects) {
            Some(g) => g,
            None => {
                return None;
            },
        };
        match &self.kind {
            PageKind::Plain(_) => {
                let mut ctx: Vec<(String, CtxValue)> = Vec::new();
                ctx.push(("objects".to_owned(), CtxValue::Table(groups)));
                ctx.push(("page".to_owned(), CtxValue::Text(self.name.clone())));
                let out = CtxValue::Table(ctx);
                proof {
                    let tm = ctx_model(out)->Table_0;
                    assert(ctx_model(CtxValue::Table(groups))->Table_0 =~= pairs_model(groups@));
                    assert(tm[0].1 =~~= CtxModel::Table(index_model(objects.entries@)));
                    let gm = globals_model(self.name@, objects.entries@);
                    assert(tm.len() == 2 && gm.len() == 2);
                    assert(tm[0].0 == gm[0].0);
                    assert(tm[0].1 == gm[0].1);
                    assert(tm[1].0 == gm[1].0);
                    assert(ctx@[1].1 is Text);
                    assert(ctx@[1].1->Text_0@ == self.name@);
                    assert(tm[1].1 == ctx_model(ctx@[1].1));
                    assert(ctx_model(ctx@[1].1) == CtxModel::Text(self.name@));
                    assert(tm[1].1 == gm[1].1);
                    assert(tm =~= gm);
                    assert(ctx_model(out) =~~= self.ctx_model_spec(objects.entries@));
                }
                Some(out)
            },
            PageKind::Bound(t) => {
                let opairs = match crate::context::object_to_ctx(&t.object) {
                    Some(p) => p,
                    None => {
                        return None;
                    },
                };
                let mut ctx: Vec<(String, CtxValue)> = Vec::new();
                ctx.push((t.definition.name.clone(), CtxValue::Table(opairs)));
                if !str_eq(t.definition.name.as_str(), "objects") {
                    ctx.push(("objects".to_owned(), CtxValue::Table(groups)));
                }
                if !str_eq(t.definition.name.as_str(), "page") {
                    ctx.push(("page".to_owned(), CtxValue::Text(self.name.clone())));
                }
                let out = CtxValue::Table(ctx);
                proof {
                    let tm = ctx_model(out)->Table_0;
                    let nm = t.definition.name@;
                    let bp = bound_pairs(nm, t.object, self.name@, objects.entries@);
                    assert(ctx_model(CtxValue::Table(opairs))->Table_0 =~= pairs_model(opairs@));
                    assert(ctx_model(CtxValue::Table(opairs)) == CtxModel::Table(
                        ctx_of_object(t.object),
                    ));
                    assert(ctx_model(CtxValue::Table(groups))->Table_0 =~= pairs_model(groups@));
                    assert(ctx_model(CtxValue::Table(groups)) == CtxModel::Table(
                        index_model(objects.entries@),
                    ));
                    assert(tm[0].1 == ctx_model(ctx@[0].1));
                    if nm != "objects"@ && nm != "page"@ {
                        assert(ctx@.len() == 3);
                        assert(tm[1].1 == ctx_model(ctx@[1].1));
                        assert(tm[2].1 == ctx_model(ctx@[2].1));
                        assert(ctx@[2].1 is Text && ctx@[2].1->Text_0@ == self.name@);
                        assert(ctx_model(ctx@[2].1) == CtxModel::Text(self.name@));
                        assert(tm =~= bp);
                    } else if nm == "objects"@ && nm != "page"@ {
                        assert(ctx@.len() == 2);
                        assert(tm[1].1 == ctx_model(ctx@[1].1));
                        assert(ctx@[1].1 is Text && ctx@[1].1->Text_0@ == self.name@);
                        assert(ctx_model(ctx@[1].1) == CtxModel::Text(self.name@));
                        assert(tm =~= bp);
                    } else if nm != "objects"@ && nm == "page"@ {
                        assert(ctx@.len() == 2);
                        assert(tm[1].1 == ctx_model(ctx@[1].1));
                        assert(tm =~= bp);
                    } else {
                        assert(ctx@.len() == 1);
                        assert(tm =~= bp);
                    }
                    assert(ctx_model(out) == self.ctx_model_spec(objects.entries@));
                }
                Some(out)
            },
        }
    }

    /// Renders this page against the object index.  The context handed
    /// to the engine is exactly `ctx_model_spec`, serialized as JSON; an
    /// unconvertible value is reported as such, and every error names
    /// this page.
    pub fn render(&self, objects: &ObjectIndex) -> (r: Result<String, RenderError>)
        ensures
            !self.convertible_spec(objects.entries@) ==> (r matches Err(e) && e matches
                RenderError::UnconvertibleValue { page } && page@ == self.spec_name()),
            r matches Err(e) ==> err_page(e) == self.spec_name(),
            r is Ok ==> self.convertible_spec(objects.entries@),
            (r matches Err(e) && (e matches RenderError::TemplateParse { .. } || e matches
                RenderError::TemplateRender { .. })) ==> self.convertible_spec(objects.entries@),
    {
        let ctx = match self.render_context(objects) {
            Some(c) => c,
            None => {
                return Err(RenderError::UnconvertibleValue { page: self.name.clone() });
            },
        };
        let json = to_json(&ctx);
        let body: &str = match &self.kind {
            PageKind::Plain(c) => c.as_str(),
            PageKind::Bound(t) => t.content.as_str(),
        };
        match liquid_apply(body, json.as_str()) {
            LiquidOutcome::Rendered(s) => Ok(s),
            LiquidOutcome::BadContext(_m) => Err(
                RenderError::UnconvertibleValue { page: self.name.clone() },
            ),
            LiquidOutcome::BadTemplate(m) => Err(
                RenderError::TemplateParse { page: self.name.clone(), message: m },
            ),
            LiquidOutcome::BadRender(m) => Err(
                RenderError::TemplateRender { page: self.name.clone(), message: m },
            ),
        }
    }

    /// The file extension this page renders to.
    pub fn extension(&self) -> (r: &str)
        ensures
            r@ == ext_text(self.spec_file_type()),
    {
        self.file_type.extension()
    }
}

impl Clone for TemplateType {
    fn clone(&self) -> (r: Self)
        ensures
            r == *self,
    {
        match self {
            TemplateType::Default => TemplateType::Default,
            TemplateType::Html => TemplateType::Html,
            TemplateType::Css => TemplateType::Css,
            TemplateType::Csv => TemplateType::Csv,
            TemplateType::Json => TemplateType::Json,
            TemplateType::Rss => TemplateType::Rss,
            TemplateType::Unknown(u) => TemplateType::Unknown(u.clone()),
        }
    }
}

/// Relies on String::push: a string of exactly the one given character.
#[verifier::external_body]
fn char_to_string(c: char) -> (r: String)
    ensures
        r@ =~= seq![c],
{
    let mut s = String::new();
    s.push(c);
    s
}

} // verus!
