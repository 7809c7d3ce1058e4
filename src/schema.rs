//! The schema language: class blocks, member declarations and their
//! normalised fields.
//!
//! The structure is found by literal delimiters: a class block runs from
//! `class ` to the next `};` (braces are not counted, so a nested block that
//! holds `};` ends its class early), a member is a run of `\r`, `\n` or `\t`
//! followed by text up to `;`, and a declaration's words are cut at spaces.
use vstd::prelude::*;
use vstd::slice::slice_subrange;
use vstd::slice::slice_to_vec;
use crate::text::chars_of;
use crate::text::find_at;
use crate::text::find_from;
use crate::text::lemma_find_from;
use crate::text::lemma_skip_line_space;
use crate::text::is_line_space;
use crate::text::skip_line_space;
use crate::text::skip_space_at;
use crate::text::split_from;
use crate::text::string_of;
use crate::graph::ClassModel;
use crate::graph::SchemaGraph;
use crate::graph::field_nodes;
use crate::graph::field_edges;
use crate::graph::layout_nodes;
use crate::graph::layout_edges;
use crate::graph::lemma_field_nodes_len;
use crate::text::matches_at;

verus! {

/// The keyword that opens a class header.
pub open spec fn class_keyword() -> Seq<char> {
    seq!['c', 'l', 'a', 's', 's', ' ']
}

/// The sequence that closes a class block.
pub open spec fn class_terminator() -> Seq<char> {
    seq!['}', ';']
}

/// The views of a sequence of strings.
pub open spec fn views(v: Seq<String>) -> Seq<Seq<char>> {
    v.map_values(|x: String| x@)
}

/// The views of a sequence of character vectors.
pub open spec fn char_views(v: Seq<Vec<char>>) -> Seq<Seq<char>> {
    v.map_values(|x: Vec<char>| x@)
}

/// The next class block at or after `from`, as the start and the end of its
/// text: the text runs from just after `class ` up to the next `};`.
pub open spec fn next_class(s: Seq<char>, from: int) -> Option<(int, int)> {
    match find_from(s, class_keyword(), from) {
        None => None,
        Some(k) => match find_from(s, class_terminator(), k + 6) {
            None => None,
            Some(e) => Some((k + 6, e)),
        },
    }
}

/// The texts of the class blocks of `s` from `from` on, in document order;
/// each search resumes at the terminator of the block before.
pub open spec fn class_texts(s: Seq<char>, from: int) -> Seq<Seq<char>>
    decreases s.len() - from,
{
    match next_class(s, from) {
        None => seq![],
        Some((b, e)) => if from < e <= s.len() && 0 <= b <= e {
            seq![s.subrange(b, e)] + class_texts(s, e)
        } else {
            seq![]
        },
    }
}

/// The first index at or after `i` holding `<` or `{` (or `s.len()`).
pub open spec fn name_end(s: Seq<char>, i: int) -> int
    decreases s.len() - i,
{
    if i < 0 || i >= s.len() || s[i] == '<' || s[i] == '{' {
        i
    } else {
        name_end(s, i + 1)
    }
}

/// A class's name: its text up to the first `<` (a parameter list) or `{`.
pub open spec fn class_name(text: Seq<char>) -> Seq<char> {
    text.subrange(0, name_end(text, 0))
}

/// The member declarations of `s` from `i` on: each is preceded by a run of
/// line spaces and ends before the next `;`. Lexing stops at the first
/// declaration with no line space before it, or with no `;` after it.
pub open spec fn lex(s: Seq<char>, i: int) -> Seq<Seq<char>>
    decreases s.len() - i,
{
    if 0 <= i < s.len() && is_line_space(s[i]) {
        let w = skip_line_space(s, i);
        match find_from(s, seq![';'], w) {
            None => seq![],
            Some(q) => if i < q + 1 <= s.len() && i <= w <= q {
                seq![s.subrange(w, q)] + lex(s, q + 1)
            } else {
                seq![]
            },
        }
    } else {
        seq![]
    }
}

/// The member declarations of a class text: those after its first `{`.
pub open spec fn members_of(text: Seq<char>) -> Seq<Seq<char>> {
    match find_from(text, seq!['{'], 0) {
        None => seq![],
        Some(p) => lex(text, p + 1),
    }
}

/// The end of a class name lies within the text.
pub proof fn lemma_name_end(s: Seq<char>, i: int)
    requires
        0 <= i <= s.len(),
    ensures
        i <= name_end(s, i) <= s.len(),
    decreases s.len() - i,
{
    if i < s.len() && s[i] != '<' && s[i] != '{' {
        lemma_name_end(s, i + 1);
    }
}

/// The start and end of the text of the next class block at or after `from`.
pub fn extract_class_code(doc: &[char], from: usize) -> (r: Option<(usize, usize)>)
    ensures
        match r {
            Some((b, e)) => next_class(doc@, from as int) == Some((b as int, e as int)) && from
                < e <= doc@.len() && b <= e,
            None => next_class(doc@, from as int) is None,
        },
{
    let keyword = vec!['c', 'l', 'a', 's', 's', ' '];
    let terminator = vec!['}', ';'];
    assert(keyword@ =~= class_keyword());
    assert(terminator@ =~= class_terminator());
    match find_at(doc, keyword.as_slice(), from) {
        None => None,
        Some(k) => {
            proof { lemma_find_from(doc@, class_keyword(), from as int); }
            assert(k + 6 <= doc.len());
            match find_at(doc, terminator.as_slice(), k + 6) {
                None => None,
                Some(e) => {
                    proof { lemma_find_from(doc@, class_terminator(), k + 6); }
                    Some((k + 6, e))
                },
            }
        },
    }
}

/// The name of a class, given its text.
pub fn class_name_of(text: &[char]) -> (r: String)
    ensures
        r@ == class_name(text@),
{
    let mut i: usize = 0;
    while i < text.len() && text[i] != '<' && text[i] != '{'
        invariant
            i <= text@.len(),
            name_end(text@, 0) == name_end(text@, i as int),
        decreases text@.len() - i,
    {
        i += 1;
    }
    string_of(slice_subrange(text, 0, i))
}

/// The member declarations of `code` from `from` on.
pub fn members_at(code: &[char], from: usize) -> (r: Vec<String>)
    ensures
        views(r@) == lex(code@, from as int),
{
    let mut out: Vec<String> = Vec::new();
    let mut i: usize = from;
    let semicolon = vec![';'];
    assert(semicolon@ =~= seq![';']);
    while i < code.len() && (code[i] == '\r' || code[i] == '\n' || code[i] == '\t')
        invariant
            lex(code@, from as int) == views(out@) + lex(code@, i as int),
            semicolon@ == seq![';'],
        decreases code@.len() - i,
    {
        let w = skip_space_at(code, i);
        proof { lemma_skip_line_space(code@, i as int); }
        match find_at(code, semicolon.as_slice(), w) {
            None => {
                assert(lex(code@, i as int) =~= seq![]);
                assert(views(out@) + lex(code@, i as int) =~= views(out@));
                return out;
            },
            Some(q) => {
                proof { lemma_find_from(code@, seq![';'], w as int); }
                let member = string_of(slice_subrange(code, w, q));
                let ghost before = out@;
                out.push(member);
                assert(views(out@) =~= views(before) + seq![member@]);
                assert(lex(code@, i as int) == seq![code@.subrange(w as int, q as int)] + lex(
                    code@,
                    q + 1,
                ));
                assert(views(out@) + lex(code@, q + 1) =~= views(before) + lex(code@, i as int));
                i = q + 1;
            },
        }
    }
    assert(lex(code@, i as int) =~= seq![]);
    assert(views(out@) + lex(code@, i as int) =~= views(out@));
    out
}

/// The member declarations of a class body, in source order, each without
/// its `;`.
pub fn extract_members_exhaustive(attributes_code: &str) -> (r: Vec<String>)
    ensures
        views(r@) == lex(attributes_code@, 0),
{
    let code = chars_of(attributes_code);
    members_at(code.as_slice(), 0)
}

/// What `inflector`'s snake-case conversion makes of a string.
pub uninterp spec fn snake_of(s: Seq<char>) -> Seq<char>;

/// Relies on `inflector::cases::snakecase::to_snake_case`, whose result
/// depends on the characters of its argument alone.
#[verifier::external_body]
fn snake_case(s: &str) -> (r: String)
    ensures
        r@ == snake_of(s@),
{
    inflector::cases::snakecase::to_snake_case(s)
}

/// A member's normalised field: its snake-case name and its wire type.
pub struct Field {
    pub name: String,
    pub wire_type: String,
}

impl View for Field {
    type V = (Seq<char>, Seq<char>);

    open spec fn view(&self) -> (Seq<char>, Seq<char>) {
        (self.name@, self.wire_type@)
    }
}

/// The views of a sequence of fields.
pub open spec fn field_views(v: Seq<Field>) -> Seq<(Seq<char>, Seq<char>)> {
    v.map_values(|f: Field| f@)
}

/// A type token names a fixed-size byte array when it holds `<` or `>`.
pub open spec fn is_array_type(t: Seq<char>) -> bool {
    t.contains('<') || t.contains('>')
}

pub open spec fn is_digit(c: char) -> bool {
    '0' <= c <= '9'
}

/// The decimal digits of `t`, in order.
pub open spec fn digits(t: Seq<char>) -> Seq<char>
    decreases t.len(),
{
    if t.len() == 0 {
        seq![]
    } else if is_digit(t.last()) {
        digits(t.drop_last()).push(t.last())
    } else {
        digits(t.drop_last())
    }
}

/// The wire type of a byte array whose length is written `n`: `[u8; n]`.
pub open spec fn byte_array(n: Seq<char>) -> Seq<char> {
    seq!['[', 'u', '8', ';', ' '] + n + seq![']']
}

/// The fixed table of primitive type tokens; any other token stands for
/// itself.
pub open spec fn known_type(t: Seq<char>) -> Seq<char> {
    if t == seq!['u', 'l', 'o', 'n', 'g'] {
        seq!['u', '6', '4']
    } else if t == seq!['l', 'o', 'n', 'g'] {
        seq!['i', '6', '4']
    } else if t == seq!['u', 'i', 'n', 't'] {
        seq!['u', '3', '2']
    } else if t == seq!['i', 'n', 't'] {
        seq!['i', '3', '2']
    } else if t == seq!['u', 's', 'h', 'o', 'r', 't'] {
        seq!['u', '1', '6']
    } else if t == seq!['s', 'h', 'o', 'r', 't'] {
        seq!['i', '1', '6']
    } else if t == seq!['b', 'y', 't', 'e'] {
        seq!['u', '8']
    } else {
        t
    }
}

/// The wire type of a type token.
pub open spec fn wire_type(t: Seq<char>) -> Seq<char> {
    if is_array_type(t) {
        byte_array(digits(t))
    } else {
        known_type(t)
    }
}

/// The field of a declaration `<type> <name>`: the first two space-separated
/// words. A declaration without a space has none.
pub open spec fn field_of(decl: Seq<char>) -> Option<(Seq<char>, Seq<char>)> {
    let words = split_from(decl, 0);
    if words.len() >= 2 {
        Some((snake_of(words[1]), wire_type(words[0])))
    } else {
        None
    }
}

/// The fields of a sequence of declarations, in order, leaving out those
/// that have none.
pub open spec fn fields_of(decls: Seq<Seq<char>>) -> Seq<(Seq<char>, Seq<char>)>
    decreases decls.len(),
{
    if decls.len() == 0 {
        seq![]
    } else {
        match field_of(decls.last()) {
            Some(f) => fields_of(decls.drop_last()).push(f),
            None => fields_of(decls.drop_last()),
        }
    }
}

/// How many of a sequence of declarations have no field (no space).
pub open spec fn dropped(decls: Seq<Seq<char>>) -> nat
    decreases decls.len(),
{
    if decls.len() == 0 {
        0
    } else if field_of(decls.last()) is None {
        dropped(decls.drop_last()) + 1
    } else {
        dropped(decls.drop_last())
    }
}

/// Every declaration either gives a field or is dropped.
pub proof fn lemma_fields_and_dropped(decls: Seq<Seq<char>>)
    ensures
        fields_of(decls).len() + dropped(decls) == decls.len(),
    decreases decls.len(),
{
    if decls.len() > 0 {
        lemma_fields_and_dropped(decls.drop_last());
    }
}

/// Whether `a` and `b` hold the same characters.
fn same_chars(a: &[char], b: &[char]) -> (r: bool)
    ensures
        r == (a@ == b@),
{
    if a.len() != b.len() {
        return false;
    }
    let r = matches_at(a, b, 0);
    assert(a@.subrange(0, b@.len() as int) =~= a@);
    r
}

/// The words of `s`, cut at every space.
pub fn split_chars(s: &[char]) -> (r: Vec<Vec<char>>)
    ensures
        char_views(r@) == split_from(s@, 0),
{
    let mut out: Vec<Vec<char>> = Vec::new();
    let mut i: usize = 0;
    let space = vec![' '];
    assert(space@ =~= seq![' ']);
    loop
        invariant
            i <= s@.len(),
            space@ == seq![' '],
            split_from(s@, 0) == char_views(out@) + split_from(s@, i as int),
        decreases s@.len() - i,
    {
        let ghost before = out@;
        match find_at(s, space.as_slice(), i) {
            None => {
                out.push(slice_to_vec(slice_subrange(s, i, s.len())));
                assert(char_views(out@) =~= char_views(before) + split_from(s@, i as int));
                return out;
            },
            Some(p) => {
                proof { lemma_find_from(s@, seq![' '], i as int); }
                assert(p < s.len());
                out.push(slice_to_vec(slice_subrange(s, i, p)));
                assert(char_views(out@) + split_from(s@, p + 1) =~= char_views(before)
                    + split_from(s@, i as int));
                i = p + 1;
            },
        }
    }
}

/// The words of a declaration, cut at every space.
pub fn split_words_to_vec(declaration: &str) -> (r: Vec<String>)
    ensures
        views(r@) == split_from(declaration@, 0),
{
    let cs = chars_of(declaration);
    let words = split_chars(cs.as_slice());
    let mut out: Vec<String> = Vec::new();
    let mut i: usize = 0;
    while i < words.len()
        invariant
            i <= words@.len(),
            views(out@) == char_views(words@).subrange(0, i as int),
        decreases words@.len() - i,
    {
        let ghost before = out@;
        let word = string_of(words[i].as_slice());
        assert(word@ == char_views(words@)[i as int]);
        out.push(word);
        assert(views(out@) =~= views(before).push(word@));
        assert(views(out@) =~= char_views(words@).subrange(0, i + 1));
        i += 1;
    }
    assert(char_views(words@).subrange(0, i as int) =~= char_views(words@));
    out
}

/// Whether a type token names a byte array.
fn is_array_chars(t: &[char]) -> (r: bool)
    ensures
        r == is_array_type(t@),
{
    let mut i: usize = 0;
    while i < t.len()
        invariant
            i <= t@.len(),
            forall|k: int| 0 <= k < i ==> t@[k] != '<' && t@[k] != '>',
        decreases t@.len() - i,
    {
        if t[i] == '<' || t[i] == '>' {
            assert(t@[i as int] == '<' || t@[i as int] == '>');
            return true;
        }
        i += 1;
    }
    false
}

/// Whether a type token names a fixed-size byte array (it holds `<` or `>`).
pub fn is_array(string: &str) -> (r: bool)
    ensures
        r == is_array_type(string@),
{
    let cs = chars_of(string);
    is_array_chars(cs.as_slice())
}

/// `prefix` followed by the digits of `t`.
fn push_digits(prefix: Vec<char>, t: &[char]) -> (r: Vec<char>)
    ensures
        r@ == prefix@ + digits(t@),
{
    let mut out = prefix;
    let mut i: usize = 0;
    while i < t.len()
        invariant
            i <= t@.len(),
            out@ == prefix@ + digits(t@.subrange(0, i as int)),
        decreases t@.len() - i,
    {
        assert(t@.subrange(0, i + 1).drop_last() =~= t@.subrange(0, i as int));
        if '0' <= t[i] && t[i] <= '9' {
            out.push(t[i]);
        }
        assert(out@ =~= prefix@ + digits(t@.subrange(0, i + 1)));
        i += 1;
    }
    assert(t@.subrange(0, i as int) =~= t@);
    out
}

/// The element count written in an array type token: its digits.
pub fn array_extract_size(slice: &str) -> (r: String)
    ensures
        r@ == digits(slice@),
{
    let cs = chars_of(slice);
    let d = push_digits(Vec::new(), cs.as_slice());
    assert(d@ =~= digits(slice@));
    string_of(d.as_slice())
}

/// The primitive type that the fixed table gives a token, or the token.
fn known_type_chars(t: &[char]) -> (r: Vec<char>)
    ensures
        r@ == known_type(t@),
{
    let ulong = vec!['u', 'l', 'o', 'n', 'g'];
    let long = vec!['l', 'o', 'n', 'g'];
    let uint = vec!['u', 'i', 'n', 't'];
    let int_word = vec!['i', 'n', 't'];
    let ushort = vec!['u', 's', 'h', 'o', 'r', 't'];
    let short = vec!['s', 'h', 'o', 'r', 't'];
    let byte = vec!['b', 'y', 't', 'e'];
    assert(ulong@ =~= seq!['u', 'l', 'o', 'n', 'g']);
    assert(long@ =~= seq!['l', 'o', 'n', 'g']);
    assert(uint@ =~= seq!['u', 'i', 'n', 't']);
    assert(int_word@ =~= seq!['i', 'n', 't']);
    assert(ushort@ =~= seq!['u', 's', 'h', 'o', 'r', 't']);
    assert(short@ =~= seq!['s', 'h', 'o', 'r', 't']);
    assert(byte@ =~= seq!['b', 'y', 't', 'e']);
    let r = if same_chars(t, ulong.as_slice()) {
        vec!['u', '6', '4']
    } else if same_chars(t, long.as_slice()) {
        vec!['i', '6', '4']
    } else if same_chars(t, uint.as_slice()) {
        vec!['u', '3', '2']
    } else if same_chars(t, int_word.as_slice()) {
        vec!['i', '3', '2']
    } else if same_chars(t, ushort.as_slice()) {
        vec!['u', '1', '6']
    } else if same_chars(t, short.as_slice()) {
        vec!['i', '1', '6']
    } else if same_chars(t, byte.as_slice()) {
        vec!['u', '8']
    } else {
        slice_to_vec(t)
    };
    assert(r@ =~= known_type(t@));
    r
}

/// The wire type that the fixed table gives a type token; a token that is
/// not in the table is returned as it is.
pub fn match_type(slice: &str) -> (r: String)
    ensures
        r@ == known_type(slice@),
{
    let cs = chars_of(slice);
    string_of(known_type_chars(cs.as_slice()).as_slice())
}

/// The wire type of a type token.
fn wire_type_chars(t: &[char]) -> (r: Vec<char>)
    ensures
        r@ == wire_type(t@),
{
    if is_array_chars(t) {
        let mut out = push_digits(vec!['[', 'u', '8', ';', ' '], t);
        out.push(']');
        assert(out@ =~= byte_array(digits(t@)));
        out
    } else {
        known_type_chars(t)
    }
}

/// The field of one declaration, or `None` when it has no space.
pub fn parse_stmt(stmt: &str) -> (r: Option<Field>)
    ensures
        match field_of(stmt@) {
            Some(f) => r is Some && r->0@ == f,
            None => r is None,
        },
{
    let cs = chars_of(stmt);
    let words = split_chars(cs.as_slice());
    if words.len() < 2 {
        return None;
    }
    assert(words@[0]@ == split_from(stmt@, 0)[0]);
    assert(words@[1]@ == split_from(stmt@, 0)[1]);
    let raw_name = string_of(words[1].as_slice());
    let name = snake_case(raw_name.as_str());
    let wire = string_of(wire_type_chars(words[0].as_slice()).as_slice());
    Some(Field { name, wire_type: wire })
}

/// The fields of a sequence of declarations, in order; a declaration without
/// a space is left out.
pub fn parse_stmts(stmt_vector: Vec<String>) -> (r: Vec<Field>)
    ensures
        field_views(r@) == fields_of(views(stmt_vector@)),
{
    let mut out: Vec<Field> = Vec::new();
    let mut i: usize = 0;
    while i < stmt_vector.len()
        invariant
            i <= stmt_vector@.len(),
            field_views(out@) == fields_of(views(stmt_vector@.subrange(0, i as int))),
        decreases stmt_vector@.len() - i,
    {
        let ghost before = out@;
        let ghost ds = views(stmt_vector@.subrange(0, i + 1));
        assert(ds.drop_last() =~= views(stmt_vector@.subrange(0, i as int)));
        assert(ds.last() == stmt_vector@[i as int]@);
        match parse_stmt(stmt_vector[i].as_str()) {
            Some(f) => {
                out.push(f);
                assert(field_views(out@) =~= field_views(before).push(f@));
            },
            None => {},
        }
        i += 1;
    }
    assert(stmt_vector@.subrange(0, i as int) =~= stmt_vector@);
    out
}

/// The class that a class text describes.
pub open spec fn class_of(text: Seq<char>) -> ClassModel {
    (class_name(text), fields_of(members_of(text)))
}

/// The classes that a sequence of class texts describes.
pub open spec fn classes_of(texts: Seq<Seq<char>>) -> Seq<ClassModel> {
    texts.map_values(|t: Seq<char>| class_of(t))
}

/// The classes of a document, in document order.
pub open spec fn schema_of(doc: Seq<char>) -> Seq<ClassModel> {
    classes_of(class_texts(doc, 0))
}

/// The member declarations of a class text.
pub fn class_members(text: &[char]) -> (r: Vec<String>)
    ensures
        views(r@) == members_of(text@),
{
    let brace = vec!['{'];
    assert(brace@ =~= seq!['{']);
    match find_at(text, brace.as_slice(), 0) {
        None => {
            let out: Vec<String> = Vec::new();
            assert(views(out@) =~= seq![]);
            out
        },
        Some(p) => {
            proof { lemma_find_from(text@, seq!['{'], 0); }
            assert(p < text.len());
            members_at(text, p + 1)
        },
    }
}

/// Builds the schema graph of a document: a class node under the root for
/// each class block, in document order, and under each class node a name
/// node and a wire-type node for each of its fields, in declaration order.
pub fn build_schema(doc: &str) -> (r: SchemaGraph)
    ensures
        r.entry == 0,
        r.nodes() == layout_nodes(schema_of(doc@)),
        r.edges() == layout_edges(schema_of(doc@)),
{
    let cs = chars_of(doc);
    let mut g = SchemaGraph::new();
    let mut pos: usize = 0;
    let ghost done: Seq<ClassModel> = seq![];
    assert(layout_nodes(done) == seq![crate::graph::entry_label()]);
    assert(schema_of(doc@) =~= done + classes_of(class_texts(cs@, 0)));
    loop
        invariant
            pos <= cs@.len(),
            cs@ == doc@,
            g.entry == 0,
            g.nodes() == layout_nodes(done),
            g.edges() == layout_edges(done),
            schema_of(doc@) == done + classes_of(class_texts(cs@, pos as int)),
        decreases cs@.len() - pos,
    {
        match extract_class_code(cs.as_slice(), pos) {
            None => {
                assert(classes_of(class_texts(cs@, pos as int)) =~= seq![]);
                assert(done + classes_of(class_texts(cs@, pos as int)) =~= done);
                return g;
            },
            Some((b, e)) => {
                let text = slice_subrange(cs.as_slice(), b, e);
                let ghost cm = class_of(text@);
                assert(classes_of(class_texts(cs@, pos as int)) =~= seq![cm] + classes_of(
                    class_texts(cs@, e as int),
                ));
                proof { lemma_name_end(text@, 0); }
                let name = class_name_of(text);
                let ghost base = g.nodes();
                let ghost base_edges = g.edges();
                let node = g.class_as_node(name);
                let members = class_members(text);
                let fields = parse_stmts(members);
                let ghost fs = field_views(fields@);
                let mut j: usize = 0;
                assert(base.push(cm.0) + field_nodes(fs.subrange(0, 0)) =~= base.push(cm.0));
                assert(base_edges.push((0nat, node as nat)) + field_edges(
                    node as nat,
                    fs.subrange(0, 0),
                ) =~= base_edges.push((0nat, node as nat)));
                while j < fields.len()
                    invariant
                        j <= fields@.len(),
                        fs == field_views(fields@),
                        node == base.len(),
                        g.entry == 0,
                        g.nodes() == base.push(cm.0) + field_nodes(fs.subrange(0, j as int)),
                        g.edges() == base_edges.push((0nat, node as nat)) + field_edges(
                            node as nat,
                            fs.subrange(0, j as int),
                        ),
                    decreases fields@.len() - j,
                {
                    proof { lemma_field_nodes_len(fs.subrange(0, j as int)); }
                    let ghost before_nodes = g.nodes();
                    let ghost before_edges = g.edges();
                    g.add_field(node, &fields[j]);
                    let ghost next = fs.subrange(0, j + 1);
                    assert(next.drop_last() =~= fs.subrange(0, j as int));
                    assert(next.last() == fields@[j as int]@);
                    assert(g.nodes() =~= base.push(cm.0) + field_nodes(next));
                    assert(g.edges() =~= base_edges.push((0nat, node as nat)) + field_edges(
                        node as nat,
                        next,
                    ));
                    j += 1;
                }
                assert(fs.subrange(0, j as int) =~= fs);
                assert(done.push(cm).drop_last() =~= done);
                proof { done = done.push(cm); }
                assert(schema_of(doc@) =~= done + classes_of(class_texts(cs@, e as int)));
                pos = e;
            },
        }
    }
}

/// How many declarations `parse_stmts` leaves out for want of a space.
pub fn dropped_count(stmt_vector: &Vec<String>) -> (r: usize)
    ensures
        r == dropped(views(stmt_vector@)),
{
    let mut count: usize = 0;
    let mut i: usize = 0;
    while i < stmt_vector.len()
        invariant
            i <= stmt_vector@.len(),
            count == dropped(views(stmt_vector@.subrange(0, i as int))),
            count <= i,
        decreases stmt_vector@.len() - i,
    {
        let ghost ds = views(stmt_vector@.subrange(0, i + 1));
        assert(ds.drop_last() =~= views(stmt_vector@.subrange(0, i as int)));
        assert(ds.last() == stmt_vector@[i as int]@);
        let cs = chars_of(stmt_vector[i].as_str());
        let words = split_chars(cs.as_slice());
        if words.len() < 2 {
            count += 1;
        }
        i += 1;
    }
    assert(stmt_vector@.subrange(0, i as int) =~= stmt_vector@);
    count
}

} // verus!
