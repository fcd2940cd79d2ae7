use vstd::prelude::*;
use crate::syntax::{LuaDocTag, LuaDocTypeRef};

verus! {

/// The keywords the parser knows.
#[derive(Clone, Copy, PartialEq, Eq, Structural, Debug)]
pub enum Keyword {
    Local,
    Function,
    End,
    Return,
    Nil,
    True,
    False,
}

/// What a token is.
#[derive(Clone, Debug, PartialEq)]
pub enum TokenKind {
    Name(String),
    Keyword(Keyword),
    Int(i64),
    Str(String),
    /// One of `= . : , ( ) { } [ ] ; ?`
    Sym(char),
    /// A doc comment line `---@...`.
    Doc(LuaDocTag),
}

/// A token, with the character offsets it covers and its line (from 0).
#[derive(Clone, Debug, PartialEq)]
pub struct Token {
    pub kind: TokenKind,
    pub start: u32,
    pub end: u32,
    pub line: u32,
}

pub open spec fn is_name_start(c: char) -> bool {
    ('a' <= c && c <= 'z') || ('A' <= c && c <= 'Z') || c == '_'
}

pub open spec fn is_digit(c: char) -> bool {
    '0' <= c && c <= '9'
}

pub open spec fn is_name_char(c: char) -> bool {
    is_name_start(c) || is_digit(c)
}

fn name_start(c: char) -> (r: bool)
    ensures
        r == is_name_start(c),
{
    ('a' <= c && c <= 'z') || ('A' <= c && c <= 'Z') || c == '_'
}

fn digit(c: char) -> (r: bool)
    ensures
        r == is_digit(c),
{
    '0' <= c && c <= '9'
}

fn name_char(c: char) -> (r: bool)
    ensures
        r == is_name_char(c),
{
    name_start(c) || digit(c)
}

/// `c` is one of the symbols the language subset has.
pub open spec fn is_symbol_spec(c: char) -> bool {
    c == '=' || c == '.' || c == ':' || c == ',' || c == '(' || c == ')' || c == '{' || c == '}' || c == '['
        || c == ']' || c == ';' || c == '?' || c == '|'
}

fn is_symbol(c: char) -> (r: bool)
    ensures
        r == is_symbol_spec(c),
{
    c == '=' || c == '.' || c == ':' || c == ',' || c == '(' || c == ')' || c == '{' || c == '}'
        || c == '[' || c == ']' || c == ';' || c == '?' || c == '|'
}

/// The characters of `text`.
pub(crate) fn chars_of(text: &str) -> (r: Vec<char>)
    ensures
        r@ == text@,
{
    let n = text.unicode_len();
    let mut r: Vec<char> = Vec::new();
    let mut i: usize = 0;
    while i < n
        invariant
            n == text@.len(),
            i <= n,
            r@ == text@.subrange(0, i as int),
        decreases n - i,
    {
        r.push(text.get_char(i));
        assert(r@ =~= text@.subrange(0, i + 1));
        i = i + 1;
    }
    assert(r@ =~= text@);
    r
}

/// The word made of the characters `from..to` of `text`.
fn word(text: &str, from: usize, to: usize) -> (r: String)
    requires
        from <= to <= text@.len(),
    ensures
        r@ == text@.subrange(from as int, to as int),
{
    text.substring_char(from, to).to_string()
}

/// The keyword spelled `w`, if it is one.
pub open spec fn keyword_spec(w: Seq<char>) -> Option<Keyword> {
    if w == "local"@ {
        Some(Keyword::Local)
    } else if w == "function"@ {
        Some(Keyword::Function)
    } else if w == "end"@ {
        Some(Keyword::End)
    } else if w == "return"@ {
        Some(Keyword::Return)
    } else if w == "nil"@ {
        Some(Keyword::Nil)
    } else if w == "true"@ {
        Some(Keyword::True)
    } else if w == "false"@ {
        Some(Keyword::False)
    } else {
        None
    }
}

fn keyword_of(w: &String) -> (r: Option<Keyword>)
    ensures
        r == keyword_spec(w@),
{
    if *w == String::from_str("local") {
        Some(Keyword::Local)
    } else if *w == String::from_str("function") {
        Some(Keyword::Function)
    } else if *w == String::from_str("end") {
        Some(Keyword::End)
    } else if *w == String::from_str("return") {
        Some(Keyword::Return)
    } else if *w == String::from_str("nil") {
        Some(Keyword::Nil)
    } else if *w == String::from_str("true") {
        Some(Keyword::True)
    } else if *w == String::from_str("false") {
        Some(Keyword::False)
    } else {
        None
    }
}

/// The end of the run of name characters (and dots, when `dots`) from `i`.
pub open spec fn name_end(cs: Seq<char>, i: int, dots: bool) -> int
    decreases cs.len() - i,
{
    if i < 0 || i >= cs.len() || !(is_name_char(cs[i]) || (dots && cs[i] == '.')) {
        i
    } else {
        name_end(cs, i + 1, dots)
    }
}

/// The end of the run of characters from `i` that satisfy `is_name_char`
/// (also `.` when `dots`).
fn scan_name(cs: &Vec<char>, i: usize, dots: bool) -> (r: usize)
    requires
        i <= cs@.len(),
    ensures
        i <= r <= cs@.len(),
        forall|j: int| i <= j < r ==> is_name_char(#[trigger] cs@[j]) || (dots && cs@[j] == '.'),
        r < cs@.len() ==> !(is_name_char(cs@[r as int]) || (dots && cs@[r as int] == '.')),
        r == name_end(cs@, i as int, dots),
{
    let mut j = i;
    while j < cs.len() && (name_char(cs[j]) || (dots && cs[j] == '.'))
        invariant
            i <= j <= cs@.len(),
            name_end(cs@, i as int, dots) == name_end(cs@, j as int, dots),
            forall|k: int| i <= k < j ==> is_name_char(#[trigger] cs@[k]) || (dots && cs@[k] == '.'),
        decreases cs@.len() - j,
    {
        j = j + 1;
    }
    j
}

/// The first place at or after `i` in `cs` that holds neither a space nor a
/// tab (the end of `cs` when there is none).
pub open spec fn spaces_end(cs: Seq<char>, i: int) -> int
    decreases cs.len() - i,
{
    if 0 <= i < cs.len() && (cs[i] == ' ' || cs[i] == '\t') {
        spaces_end(cs, i + 1)
    } else {
        i
    }
}

fn skip_spaces(cs: &Vec<char>, i: usize) -> (r: usize)
    requires
        i <= cs@.len(),
    ensures
        i <= r <= cs@.len(),
        r == spaces_end(cs@, i as int),
        forall|j: int| i <= j < r ==> #[trigger] cs@[j] == ' ' || cs@[j] == '\t',
        r < cs@.len() ==> cs@[r as int] != ' ' && cs@[r as int] != '\t',
{
    let mut j = i;
    while j < cs.len() && (cs[j] == ' ' || cs[j] == '\t')
        invariant
            i <= j <= cs@.len(),
            spaces_end(cs@, i as int) == spaces_end(cs@, j as int),
            forall|k: int| i <= k < j ==> #[trigger] cs@[k] == ' ' || cs@[k] == '\t',
        decreases cs@.len() - j,
    {
        j = j + 1;
    }
    j
}

/// Scanning `cs` from `e` at bracket depth `depth`: just after the bracket
/// that brings the depth back to 0, counting `{}` and `<>`; none when the
/// line or the text ends first.
pub open spec fn bracket_end(cs: Seq<char>, e: int, depth: nat) -> Option<int>
    decreases cs.len() - e,
{
    if e < 0 || e >= cs.len() || cs[e] == '\n' {
        None
    } else if cs[e] == '{' || cs[e] == '<' {
        bracket_end(cs, e + 1, depth + 1)
    } else if cs[e] == '}' || cs[e] == '>' {
        if depth <= 1 {
            Some(e + 1)
        } else {
            bracket_end(cs, e + 1, (depth - 1) as nat)
        }
    } else {
        bracket_end(cs, e + 1, depth)
    }
}

/// The end of the bracketed text that opens at `s` with `{` or `<`: just
/// after the bracket that closes it on the same line, counting `{}` and `<>`
/// nested inside.
fn scan_bracketed(cs: &Vec<char>, s: usize) -> (r: Option<usize>)
    requires
        s < cs@.len(),
    ensures
        r matches Some(e) ==> s < e <= cs@.len(),
        match r {
            Some(e) => bracket_end(cs@, s + 1, 1) == Some(e as int),
            None => bracket_end(cs@, s + 1, 1) is None,
        },
{
    let n = cs.len();
    let mut depth: usize = 1;
    let mut e = s + 1;
    while e < cs.len() && cs[e] != '\n'
        invariant
            s < e <= cs@.len(),
            1 <= depth <= e - s,
            bracket_end(cs@, s + 1, 1) == bracket_end(cs@, e as int, depth as nat),
        decreases cs@.len() - e,
    {
        let c = cs[e];
        if c == '{' || c == '<' {
            depth = depth + 1;
        } else if c == '}' || c == '>' {
            if depth == 1 {
                return Some(e + 1);
            }
            depth = depth - 1;
        }
        e = e + 1;
    }
    None
}

/// Scanning `cs` from `e` for the quote `q` that closes a string literal:
/// just after it; none when the line or the text ends first.
pub open spec fn quote_end(cs: Seq<char>, e: int, q: char) -> Option<int>
    decreases cs.len() - e,
{
    if e < 0 || e >= cs.len() || cs[e] == '\n' {
        None
    } else if cs[e] == q {
        Some(e + 1)
    } else {
        quote_end(cs, e + 1, q)
    }
}

/// The end of one operand of a doc type that starts at `s` (see
/// `scan_doc_alternative`).
pub open spec fn alternative_end(cs: Seq<char>, s: int) -> Option<int> {
    if 0 <= s < cs.len() && (cs[s] == '\'' || cs[s] == '"') {
        quote_end(cs, s + 1, cs[s])
    } else if 0 <= s < cs.len() && cs[s] == '{' {
        bracket_end(cs, s + 1, 1)
    } else {
        let e = name_end(cs, s, true);
        if e == s {
            None
        } else if e < cs.len() && cs[e] == '<' {
            bracket_end(cs, e + 1, 1)
        } else if e - s == 5 && cs[s] == 'k' && cs[s + 1] == 'e' && cs[s + 2] == 'y' && cs[s + 3] == 'o'
            && cs[s + 4] == 'f' && e < cs.len() - 1 && cs[e] == ' ' && name_end(cs, e + 1, true) > e + 1 {
            Some(name_end(cs, e + 1, true))
        } else {
            Some(e)
        }
    }
}

/// The end of one operand of a doc type at `s`: a name (with dots), `keyof`
/// and a name, a string literal in quotes, or an object type in braces on
/// one line; `None` when there is none of these.
fn scan_doc_alternative(cs: &Vec<char>, s: usize) -> (r: Option<usize>)
    requires
        s <= cs@.len(),
    ensures
        r matches Some(e) ==> s < e <= cs@.len(),
        match r {
            Some(e) => alternative_end(cs@, s as int) == Some(e as int),
            None => alternative_end(cs@, s as int) is None,
        },
{
    if s < cs.len() && (cs[s] == '\'' || cs[s] == '"') {
        let q = cs[s];
        let mut e = s + 1;
        while e < cs.len() && cs[e] != q && cs[e] != '\n'
            invariant
                s < e <= cs@.len(),
                q == cs@[s as int],
                alternative_end(cs@, s as int) == quote_end(cs@, e as int, q),
            decreases cs@.len() - e,
        {
            e = e + 1;
        }
        if e >= cs.len() || cs[e] != q {
            return None;
        }
        return Some(e + 1);
    }
    if s < cs.len() && cs[s] == '{' {
        return scan_bracketed(cs, s);
    }
    let e = scan_name(cs, s, true);
    if e == s {
        return None;
    }
    // `Base<A, B>` is one operand.
    if e < cs.len() && cs[e] == '<' {
        return scan_bracketed(cs, e);
    }
    // `keyof X` is one operand.
    if e - s == 5 && cs[s] == 'k' && cs[s + 1] == 'e' && cs[s + 2] == 'y' && cs[s + 3] == 'o' && cs[s + 4] == 'f'
        && e < cs.len() - 1 && cs[e] == ' ' {
        let e2 = scan_name(cs, e + 1, true);
        if e2 > e + 1 {
            return Some(e2);
        }
    }
    Some(e)
}

/// `s` without its spaces and tabs, but for one space kept where spaces
/// stood between two name characters (`keyof X`); `last` is the character
/// kept before `s`, and `gap` whether spaces followed it.
pub open spec fn compact(s: Seq<char>, last: Option<char>, gap: bool) -> Seq<char>
    decreases s.len(),
{
    if s.len() == 0 {
        Seq::empty()
    } else if s[0] == ' ' || s[0] == '\t' {
        compact(s.drop_first(), last, true)
    } else {
        let sep = if gap && last is Some && is_name_char(last->0) && is_name_char(s[0]) {
            seq![' ']
        } else {
            Seq::<char>::empty()
        };
        sep + seq![s[0]] + compact(s.drop_first(), Some(s[0]), false)
    }
}

/// The text of the operand `from..to` without its spaces, but for one space
/// kept between two words (`keyof X`).
fn operand_text(text: &str, cs: &Vec<char>, from: usize, to: usize) -> (r: String)
    requires
        cs@ == text@,
        from < to <= text@.len(),
    ensures
        r@ == compact(text@.subrange(from as int, to as int), None, false),
{
    let mut r = String::new();
    let mut last: Option<char> = None;
    let mut gap = false;
    let mut j = from;
    proof {
        reveal_strlit(" ");
    }
    while j < to
        invariant
            from <= j <= to,
            to <= cs@.len(),
            cs@ == text@,
            " "@ == seq![' '],
            r@ + compact(cs@.subrange(j as int, to as int), last, gap) == compact(
                cs@.subrange(from as int, to as int),
                None,
                false,
            ),
        decreases to - j,
    {
        let ghost sub = cs@.subrange(j as int, to as int);
        assert(sub.drop_first() =~= cs@.subrange(j + 1, to as int));
        assert(sub[0] == cs@[j as int]);
        let c = cs[j];
        if c == ' ' || c == '\t' {
            gap = true;
        } else {
            let ghost r0 = r@;
            let mut sep = false;
            if let Some(l) = last {
                if gap && name_char(l) && name_char(c) {
                    sep = true;
                }
            }
            if sep {
                r = r.concat(" ");
            }
            let piece = text.substring_char(j, j + 1);
            assert(piece@ =~= seq![c]);
            r = r.concat(piece);
            proof {
                let rest = compact(cs@.subrange(j + 1, to as int), Some(c), false);
                let sp = if gap && last is Some && is_name_char(last->0) && is_name_char(c) {
                    seq![' ']
                } else {
                    Seq::<char>::empty()
                };
                assert(compact(sub, last, gap) == sp + seq![c] + rest);
                assert(r@ =~= r0 + sp + seq![c]);
                assert(r0 + (sp + seq![c] + rest) =~= r@ + rest);
            }
            last = Some(c);
            gap = false;
        }
        j = j + 1;
    }
    assert(cs@.subrange(to as int, to as int) =~= Seq::<char>::empty());
    assert(r@ + Seq::<char>::empty() =~= r@);
    r
}

/// Scanning on after an operand that ends at `e`, with `acc` the text kept
/// so far: while a `|` or `&` follows (spaces allowed around it), the next
/// operand is taken and its text added after the separator. The end of the
/// last operand and the whole text; none when a separator has no operand.
pub open spec fn type_rest(cs: Seq<char>, e: int, acc: Seq<char>) -> Option<(int, Seq<char>)>
    decreases cs.len() - e,
{
    let j = spaces_end(cs, e);
    if j < 0 || j >= cs.len() || (cs[j] != '|' && cs[j] != '&') {
        Some((e, acc))
    } else {
        let s2 = spaces_end(cs, j + 1);
        match alternative_end(cs, s2) {
            Some(e2) => if e < e2 <= cs.len() {
                type_rest(cs, e2, acc + seq![cs[j]] + compact(cs.subrange(s2, e2), None, false))
            } else {
                None
            },
            None => None,
        }
    }
}

/// The doc type that starts at `i` (after spaces): where its operands end
/// (before an optional `?`) and its text without spaces.
pub open spec fn doc_type_scan(cs: Seq<char>, i: int) -> Option<(int, Seq<char>)> {
    let s = spaces_end(cs, i);
    match alternative_end(cs, s) {
        Some(e) => if s < e <= cs.len() {
            type_rest(cs, e, compact(cs.subrange(s, e), None, false))
        } else {
            None
        },
        None => None,
    }
}

/// A doc type at `i`: operands separated by `|` or `&` (spaces around them
/// allowed), and an optional `?`. The text kept is the operands and the
/// separators, without those spaces.
fn scan_doc_type(text: &str, cs: &Vec<char>, i: usize) -> (r: Option<(LuaDocTypeRef, usize)>)
    requires
        cs@ == text@,
        i <= cs@.len(),
    ensures
        r matches Some((_, j)) ==> i < j <= cs@.len(),
        match r {
            None => doc_type_scan(cs@, i as int) is None,
            Some((t, j)) => doc_type_scan(cs@, i as int) matches Some((e, txt)) && t.name@ == txt && if 0
                <= e < cs@.len() && cs@[e] == '?' {
                t.optional && j == e + 1
            } else {
                !t.optional && j == e
            },
        },
{
    proof {
        reveal_strlit("|");
        reveal_strlit("&");
    }
    let s = skip_spaces(cs, i);
    let mut e = match scan_doc_alternative(cs, s) {
        Some(e) => e,
        None => {
            assert(doc_type_scan(cs@, i as int) is None);
            return None;
        },
    };
    let mut name = operand_text(text, cs, s, e);
    loop
        invariant
            s < e <= cs@.len(),
            cs@ == text@,
            i <= s,
            "|"@ == seq!['|'],
            "&"@ == seq!['&'],
            type_rest(cs@, e as int, name@) == doc_type_scan(cs@, i as int),
        ensures
            type_rest(cs@, e as int, name@) == Some((e as int, name@)),
        decreases cs@.len() - e,
    {
        let j = skip_spaces(cs, e);
        if j >= cs.len() || (cs[j] != '|' && cs[j] != '&') {
            assert(type_rest(cs@, e as int, name@) == Some((e as int, name@)));
            break;
        }
        let sep = if cs[j] == '|' {
            "|"
        } else {
            "&"
        };
        let s2 = skip_spaces(cs, j + 1);
        let e2 = match scan_doc_alternative(cs, s2) {
            Some(e2) => e2,
            None => {
                assert(type_rest(cs@, e as int, name@) is None);
                return None;
            },
        };
        let ghost old_name = name@;
        let piece = operand_text(text, cs, s2, e2);
        name = name.concat(sep).concat(piece.as_str());
        assert(name@ =~= old_name + seq![cs@[j as int]] + compact(cs@.subrange(s2 as int, e2 as int), None, false));
        e = e2;
    }
    if e < cs.len() && cs[e] == '?' {
        Some((LuaDocTypeRef { name, optional: true }, e + 1))
    } else {
        Some((LuaDocTypeRef { name, optional: false }, e))
    }
}

/// `t` is the doc type that `cs` holds from `at`: its text, and whether a
/// `?` follows its operands.
pub open spec fn doc_type_at(cs: Seq<char>, at: int, t: LuaDocTypeRef) -> bool {
    doc_type_scan(cs, at) matches Some((e, txt)) && t.name@ == txt && t.optional == (0 <= e < cs.len()
        && cs[e] == '?')
}

/// The tag word at `i`: the name characters that follow `---@`.
pub open spec fn tag_word(cs: Seq<char>, i: int) -> Seq<char> {
    cs.subrange(i, name_end(cs, i, false))
}

/// `w` is a nonempty word of name characters.
pub open spec fn is_word(w: Seq<char>) -> bool {
    w.len() > 0 && forall|k: int| 0 <= k < w.len() ==> is_name_char(#[trigger] w[k])
}

/// Some doc type in `cs` at or after `i` is `t`.
pub open spec fn doc_type_after(cs: Seq<char>, i: int, t: LuaDocTypeRef) -> bool {
    exists|at: int| i <= at <= cs.len() && doc_type_at(cs, at, t)
}

/// Where the generic parameters of a class, read from `p` (just after
/// `<`), end: just after the `>` that closes them; none when they are not
/// names separated by `,`.
pub open spec fn params_end(cs: Seq<char>, p: int) -> Option<int>
    decreases cs.len() - p,
{
    let a = spaces_end(cs, p);
    let b = name_end(cs, a, false);
    let c = spaces_end(cs, b);
    if p < 0 || a < p || b <= a || c < b {
        None
    } else if c < cs.len() && cs[c] == ',' {
        params_end(cs, c + 1)
    } else if c < cs.len() && cs[c] == '>' {
        Some(c + 1)
    } else {
        None
    }
}

/// The generic parameters of a class read from `p` are the names `ps`.
pub open spec fn params_val(cs: Seq<char>, p: int, ps: Seq<String>) -> bool
    decreases cs.len() - p,
{
    let a = spaces_end(cs, p);
    let b = name_end(cs, a, false);
    let c = spaces_end(cs, b);
    if p < 0 || a < p || b <= a || c < b {
        false
    } else {
        ps.len() >= 1 && ps[0]@ == cs.subrange(a, b) && if c < cs.len() && cs[c] == ',' {
            params_val(cs, c + 1, ps.drop_first())
        } else {
            ps.len() == 1
        }
    }
}

/// The end of the doc type read at `q`, with its `?`.
pub open spec fn doc_type_stop(cs: Seq<char>, e: int) -> int {
    if 0 <= e < cs.len() && cs[e] == '?' {
        e + 1
    } else {
        e
    }
}

/// Whether the super types of a class, read from `q` (just after `:`) as
/// doc types separated by `,`, all read.
pub open spec fn supers_read(cs: Seq<char>, q: int) -> bool
    decreases cs.len() - q,
{
    match doc_type_scan(cs, q) {
        None => false,
        Some((e, _)) => {
            let d = spaces_end(cs, doc_type_stop(cs, e));
            if d < cs.len() && cs[d] == ',' && q < d + 1 {
                supers_read(cs, d + 1)
            } else {
                true
            }
        },
    }
}

/// The super types of a class read from `q` are `ss`.
pub open spec fn supers_val(cs: Seq<char>, q: int, ss: Seq<LuaDocTypeRef>) -> bool
    decreases cs.len() - q,
{
    match doc_type_scan(cs, q) {
        None => false,
        Some((e, _)) => {
            let d = spaces_end(cs, doc_type_stop(cs, e));
            ss.len() >= 1 && doc_type_at(cs, q, ss[0]) && if d < cs.len() && cs[d] == ',' && q < d + 1 {
                supers_val(cs, d + 1, ss.drop_first())
            } else {
                ss.len() == 1
            }
        },
    }
}

/// `r` is what a `class` tag whose word ends at `e` reads as: its name,
/// its generic parameters in `<>` and its super types after `:`; none when
/// the name is missing or the parameters or a super type do not read.
pub open spec fn class_ok(cs: Seq<char>, e: int, r: Option<LuaDocTag>) -> bool {
    let s = spaces_end(cs, e);
    let ne = name_end(cs, s, true);
    let pe = if ne < cs.len() && cs[ne] == '<' {
        params_end(cs, ne + 1)
    } else {
        Some(ne)
    };
    if ne == s {
        r is None
    } else {
        match pe {
            None => r is None,
            Some(p) => {
                let c = spaces_end(cs, p);
                let has_supers = c < cs.len() && cs[c] == ':';
                if has_supers && !supers_read(cs, c + 1) {
                    r is None
                } else {
                    r matches Some(LuaDocTag::Class(n, ps, ss)) && n@ == cs.subrange(s, ne) && (if ne < cs.len()
                        && cs[ne] == '<' {
                        params_val(cs, ne + 1, ps@)
                    } else {
                        ps@.len() == 0
                    }) && (if has_supers {
                        supers_val(cs, c + 1, ss@)
                    } else {
                        ss@.len() == 0
                    })
                }
            },
        }
    }
}

/// `r` is what the doc tag at `i` (the text after `---@`) reads as: by its
/// tag word, a `type`, `return`, `field` or `class` tag with the doc types
/// and names written after it; none for any other word or when what follows
/// the word does not read.
pub open spec fn doc_tag_ok(cs: Seq<char>, i: int, r: Option<LuaDocTag>) -> bool {
    &&& ((tag_word(cs, i) == "type"@ || tag_word(cs, i) == "return"@) ==> (r is Some
        <==> doc_type_scan(cs, name_end(cs, i, false)) is Some))
    &&& (tag_word(cs, i) == "type"@ && r is Some ==> (r matches Some(LuaDocTag::Type(t)) && doc_type_at(
        cs,
        name_end(cs, i, false),
        t,
    )))
    &&& (tag_word(cs, i) == "return"@ && r is Some ==> (r matches Some(LuaDocTag::Return(t))
        && doc_type_at(cs, name_end(cs, i, false), t)))
    &&& (tag_word(cs, i) == "field"@ ==> ({
        let s = spaces_end(cs, name_end(cs, i, false));
        let ne = name_end(cs, s, false);
        let te = if ne < cs.len() && cs[ne] == '?' {
            ne + 1
        } else {
            ne
        };
        &&& ne == s ==> r is None
        &&& ne > s && s < u32::MAX ==> (r is Some <==> doc_type_scan(cs, te) is Some)
        &&& r is Some ==> (r matches Some(LuaDocTag::Field(n, at, t)) && n@ == cs.subrange(s, ne) && at
            == s && doc_type_at(cs, te, t))
    }))
    &&& (tag_word(cs, i) == "class"@ ==> ({
        let s = spaces_end(cs, name_end(cs, i, false));
        let ne = name_end(cs, s, true);
        let c = spaces_end(cs, ne);
        &&& ne == s ==> r is None
        &&& r is Some ==> (r matches Some(LuaDocTag::Class(n, ps, ss)) && n@ == cs.subrange(s, ne) && (
        forall|k: int| 0 <= k < ps.len() ==> is_word(#[trigger] ps@[k]@)) && (forall|k: int|
            0 <= k < ss.len() ==> doc_type_after(cs, i, #[trigger] ss@[k])))
        &&& ne > s && !(ne < cs.len() && cs[ne] == '<') && !(c < cs.len() && cs[c] == ':') ==> (r matches Some(
            LuaDocTag::Class(_, ps, ss),
        ) && ps.len() == 0 && ss.len() == 0)
    }))
    &&& (tag_word(cs, i) != "type"@ && tag_word(cs, i) != "return"@ && tag_word(cs, i)
        != "field"@ && tag_word(cs, i) != "class"@ ==> r is None)
    &&& (tag_word(cs, i) == "class"@ ==> class_ok(cs, name_end(cs, i, false), r))
}

/// The doc tag of a comment whose text after `---@` starts at `i`.
#[verifier::loop_isolation(false)]
#[verifier::spinoff_prover]
fn scan_doc_tag(text: &str, cs: &Vec<char>, i: usize) -> (r: Option<LuaDocTag>)
    requires
        cs@ == text@,
        i <= cs@.len(),
    ensures
        (tag_word(cs@, i as int) == "type"@ || tag_word(cs@, i as int) == "return"@) ==> (r is Some
            <==> doc_type_scan(cs@, name_end(cs@, i as int, false)) is Some),
        tag_word(cs@, i as int) == "type"@ && r is Some ==> (r matches Some(LuaDocTag::Type(t)) && doc_type_at(
            cs@,
            name_end(cs@, i as int, false),
            t,
        )),
        tag_word(cs@, i as int) == "return"@ && r is Some ==> (r matches Some(LuaDocTag::Return(t))
            && doc_type_at(cs@, name_end(cs@, i as int, false), t)),
        tag_word(cs@, i as int) == "field"@ ==> ({
            let s = spaces_end(cs@, name_end(cs@, i as int, false));
            let ne = name_end(cs@, s, false);
            let te = if ne < cs@.len() && cs@[ne] == '?' {
                ne + 1
            } else {
                ne
            };
            &&& ne == s ==> r is None
            &&& ne > s && s < u32::MAX ==> (r is Some <==> doc_type_scan(cs@, te) is Some)
            &&& r is Some ==> (r matches Some(LuaDocTag::Field(n, at, t)) && n@ == cs@.subrange(s, ne) && at
                == s && doc_type_at(cs@, te, t))
        }),
        tag_word(cs@, i as int) == "class"@ ==> ({
            let s = spaces_end(cs@, name_end(cs@, i as int, false));
            let ne = name_end(cs@, s, true);
            let c = spaces_end(cs@, ne);
            &&& ne == s ==> r is None
            &&& r is Some ==> (r matches Some(LuaDocTag::Class(n, ps, ss)) && n@ == cs@.subrange(s, ne) && (
            forall|k: int| 0 <= k < ps.len() ==> is_word(#[trigger] ps@[k]@)) && (forall|k: int|
                0 <= k < ss.len() ==> doc_type_after(cs@, i as int, #[trigger] ss@[k])))
            &&& ne > s && !(ne < cs@.len() && cs@[ne] == '<') && !(c < cs@.len() && cs@[c] == ':') ==> (r matches Some(
                LuaDocTag::Class(_, ps, ss),
            ) && ps.len() == 0 && ss.len() == 0)
        }),
        tag_word(cs@, i as int) != "type"@ && tag_word(cs@, i as int) != "return"@ && tag_word(cs@, i as int)
            != "field"@ && tag_word(cs@, i as int) != "class"@ ==> r is None,
        tag_word(cs@, i as int) == "class"@ ==> class_ok(cs@, name_end(cs@, i as int, false), r),
{
    proof {
        reveal_strlit("class");
        reveal_strlit("type");
        reveal_strlit("return");
        reveal_strlit("field");
        assert("type"@.len() == 4 && "return"@.len() == 6 && "field"@.len() == 5 && "class"@.len() == 5);
        assert("class"@ != "field"@) by {
            assert("class"@[0] != "field"@[0]);
        }
    }
    let e = scan_name(cs, i, false);
    let tag = word(text, i, e);
    if tag == String::from_str("class") {
        let s = skip_spaces(cs, e);
        let ne = scan_name(cs, s, true);
        assert(tag_word(cs@, i as int) == "class"@);
        assert(tag_word(cs@, i as int) != "type"@);
        assert(tag_word(cs@, i as int) != "return"@);
        assert(tag_word(cs@, i as int) != "field"@);
        if ne == s {
            return None;
        }
        let name = word(text, s, ne);
        let n = cs.len();
        // Generic parameters: `<T, U>`.
        let mut params: Vec<String> = Vec::new();
        let mut p = ne;
        if p < n && cs[p] == '<' {
            p = p + 1;
            loop
                invariant
                    params_end(cs@, ne + 1) == params_end(cs@, p as int),
                    forall|rest: Seq<String>| #[trigger] params_val(cs@, p as int, rest) ==> params_val(
                        cs@,
                        ne + 1,
                        params@ + rest,
                    ),
                    i <= p <= n,
                    n == cs@.len(),
                    cs@ == text@,
                    forall|k: int| 0 <= k < params.len() ==> is_word(#[trigger] params@[k]@),
                decreases n - p,
            {
                let ghost p0 = p as int;
                let ghost pr0 = params@;
                let a = skip_spaces(cs, p);
                let b = scan_name(cs, a, false);
                if b == a {
                    assert(params_end(cs@, p as int) is None);
                    assert(params_end(cs@, ne + 1) is None);
                    assert(class_ok(cs@, e as int, None));
                    return None;
                }
                let pw = word(text, a, b);
                assert(is_word(pw@));
                params.push(pw);
                let c = skip_spaces(cs, b);
                if c < n && cs[c] == ',' {
                    p = c + 1;
                    assert forall|rest: Seq<String>| #[trigger] params_val(cs@, p as int, rest) implies params_val(
                        cs@,
                        ne + 1,
                        params@ + rest,
                    ) by {
                        let r1 = seq![pw] + rest;
                        assert(r1.drop_first() =~= rest);
                        assert(params_val(cs@, p0, r1));
                        assert(pr0 + r1 =~= params@ + rest);
                    }
                } else if c < n && cs[c] == '>' {
                    p = c + 1;
                    proof {
                        assert(params_val(cs@, p0, seq![pw]));
                        assert(pr0 + seq![pw] =~= params@);
                        assert(params_val(cs@, ne + 1, params@));
                        assert(params_end(cs@, ne + 1) == Some(p as int));
                    }
                    break;
                } else {
                    assert(params_end(cs@, p0) is None);
                    assert(params_end(cs@, ne + 1) is None);
                    assert(class_ok(cs@, e as int, None));
                    return None;
                }
            }
        }
        // Super types: `: A, B<T>`.
        let mut supers: Vec<LuaDocTypeRef> = Vec::new();
        let ghost pe: Option<int> = if ne < n && cs@[ne as int] == '<' {
            params_end(cs@, ne + 1)
        } else {
            Some(ne as int)
        };
        assert(pe == Some(p as int));
        let c = skip_spaces(cs, p);
        if c < n && cs[c] == ':' {
            let mut q = c + 1;
            loop
                invariant
                    supers_read(cs@, c + 1) == supers_read(cs@, q as int),
                    forall|rest: Seq<LuaDocTypeRef>| #[trigger] supers_val(cs@, q as int, rest) ==> supers_val(
                        cs@,
                        c + 1,
                        supers@ + rest,
                    ),
                    i <= q <= n,
                    c < q,
                    n == cs@.len(),
                    cs@ == text@,
                    forall|k: int| 0 <= k < supers.len() ==> doc_type_after(cs@, i as int, #[trigger] supers@[k]),
                decreases n - q,
            {
                let ghost q0 = q as int;
                let ghost s0 = supers@;
                let (t, e2) = match scan_doc_type(text, cs, q) {
                    Some(x) => x,
                    None => {
                        assert(!supers_read(cs@, q as int));
                        assert(!supers_read(cs@, c + 1));
                        assert(class_ok(cs@, e as int, None));
                        return None;
                    },
                };
                assert(doc_type_at(cs@, q as int, t));
                assert(doc_type_after(cs@, i as int, t));
                supers.push(t);
                let d = skip_spaces(cs, e2);
                if d < n && cs[d] == ',' {
                    q = d + 1;
                    assert forall|rest: Seq<LuaDocTypeRef>| #[trigger] supers_val(cs@, q as int, rest) implies supers_val(
                        cs@,
                        c + 1,
                        supers@ + rest,
                    ) by {
                        let r1 = seq![t] + rest;
                        assert(r1.drop_first() =~= rest);
                        assert(supers_val(cs@, q0, r1));
                        assert(s0 + r1 =~= supers@ + rest);
                    }
                } else {
                    proof {
                        assert(supers_val(cs@, q0, seq![t]));
                        assert(s0 + seq![t] =~= supers@);
                        assert(supers_val(cs@, c + 1, supers@));
                        assert(supers_read(cs@, q0));
                    }
                    break;
                }
            }
        }
        Some(LuaDocTag::Class(name, params, supers))
    } else if tag == String::from_str("type") {
        assert(tag_word(cs@, i as int) == "type"@);
        assert(tag_word(cs@, i as int) != "return"@);
        assert(tag_word(cs@, i as int) != "field"@);
        assert(tag_word(cs@, i as int) != "class"@);
        match scan_doc_type(text, cs, e) {
            Some((t, _)) => Some(LuaDocTag::Type(t)),
            None => None,
        }
    } else if tag == String::from_str("return") {
        assert(tag_word(cs@, i as int) == "return"@);
        assert(tag_word(cs@, i as int) != "type"@);
        assert(tag_word(cs@, i as int) != "field"@);
        assert(tag_word(cs@, i as int) != "class"@);
        match scan_doc_type(text, cs, e) {
            Some((t, _)) => Some(LuaDocTag::Return(t)),
            None => None,
        }
    } else if tag == String::from_str("field") {
        assert(tag_word(cs@, i as int) == "field"@);
        assert(tag_word(cs@, i as int) != "type"@);
        assert(tag_word(cs@, i as int) != "return"@);
        let s = skip_spaces(cs, e);
        let ne = scan_name(cs, s, false);
        if ne == s || s >= u32::MAX as usize {
            return None;
        }
        let name = word(text, s, ne);
        let (name, ne) = if ne < cs.len() && cs[ne] == '?' {
            (name, ne + 1)
        } else {
            (name, ne)
        };
        match scan_doc_type(text, cs, ne) {
            Some((t, _)) => Some(LuaDocTag::Field(name, s as u32, t)),
            None => None,
        }
    } else {
        None
    }
}

/// The token `t` stands for what `text` holds at its place: a name or a
/// keyword spelled there, digits, a string literal between its quotes, a
/// symbol, or a doc comment starting with `---`.
pub open spec fn token_text_ok(text: Seq<char>, t: Token) -> bool {
    &&& t.start < t.end <= text.len()
    &&& match t.kind {
        TokenKind::Name(w) => w@ == text.subrange(t.start as int, t.end as int) && keyword_spec(w@) is None,
        TokenKind::Keyword(k) => keyword_spec(text.subrange(t.start as int, t.end as int)) == Some(k),
        TokenKind::Int(_) => forall|j: int| t.start <= j < t.end ==> is_digit(#[trigger] text[j]),
        TokenKind::Str(v) => t.end - t.start >= 2 && (text[t.start as int] == '"' || text[t.start as int] == '\'')
            && text[t.end - 1] == text[t.start as int] && v@ == text.subrange(t.start + 1, t.end - 1),
        TokenKind::Sym(c) => t.end == t.start + 1 && text[t.start as int] == c && is_symbol_spec(c),
        TokenKind::Doc(_) => t.end - t.start >= 3 && text[t.start as int] == '-' && text[t.start + 1] == '-'
            && text[t.start + 2] == '-',
    }
}

/// The tokens `ts` each stand for what `text` holds at their place, in the
/// order of the text, without overlapping.
pub open spec fn tokens_ok(text: Seq<char>, ts: Seq<Token>) -> bool {
    &&& forall|k: int| 0 <= k < ts.len() ==> token_text_ok(text, #[trigger] ts[k])
    &&& forall|k: int, l: int| 0 <= k < l < ts.len() ==> (#[trigger] ts[k]).end <= (#[trigger] ts[l]).start
}

/// `w` is a single name: a name character run starting with a letter or `_`.
pub open spec fn is_single_word(w: Seq<char>) -> bool {
    0 < w.len() < u32::MAX && is_name_start(w[0]) && forall|j: int| 0 <= j < w.len() ==> is_name_char(#[trigger] w[j])
}

/// `ts` are the tokens of a dotted path: names separated by `.` symbols.
pub open spec fn is_path_tokens(ts: Seq<Token>) -> bool {
    &&& ts.len() % 2 == 1
    &&& forall|k: int|
        0 <= k < ts.len() ==> if k % 2 == 0 {
            (#[trigger] ts[k]).kind is Name
        } else {
            ts[k].kind == TokenKind::Sym('.')
        }
}

/// `w` is a dotted path of names, such as `a.b.c`: name characters and
/// dots, starting with a letter or `_`, each dot followed by a letter or
/// `_`, and none of its names a keyword.
pub open spec fn is_path_text(w: Seq<char>) -> bool {
    &&& 0 < w.len() < u32::MAX
    &&& is_name_start(w[0])
    &&& forall|j: int|
        0 <= j < w.len() ==> is_name_char(#[trigger] w[j]) || (w[j] == '.' && j + 1 < w.len() && is_name_start(
            w[j + 1],
        ))
    &&& forall|i: int|
        0 <= i < w.len() && (i == 0 || w[i - 1] == '.') ==> keyword_spec(
            w.subrange(i, #[trigger] name_end(w, i, false)),
        ) is None
}

/// `ts` are the tokens of the dotted path `text`: names and dots, in order,
/// one right after the other, from the start of the text to its end.
pub open spec fn path_tokens_of(text: Seq<char>, ts: Seq<Token>) -> bool {
    &&& is_path_tokens(ts)
    &&& tokens_ok(text, ts)
    &&& ts[0].start == 0
    &&& ts[ts.len() - 1].end == text.len()
    &&& forall|k: int| 0 <= k < ts.len() - 1 ==> (#[trigger] ts[k]).end == ts[k + 1].start
}

/// The tokens `ts` of the dotted path `text` read up to `i`: names and
/// dots alternating from the start, one right after the other, ending at
/// `i`; a name comes next when they end with a dot (or are none), and a dot
/// or the end of the text when they end with a name.
pub open spec fn path_prefix(text: Seq<char>, ts: Seq<Token>, i: int) -> bool {
    &&& forall|k: int|
        0 <= k < ts.len() ==> if k % 2 == 0 {
            (#[trigger] ts[k]).kind is Name
        } else {
            ts[k].kind == TokenKind::Sym('.')
        }
    &&& forall|k: int| 0 <= k < ts.len() - 1 ==> (#[trigger] ts[k]).end == ts[k + 1].start
    &&& ts.len() > 0 ==> ts[0].start == 0 && ts[ts.len() - 1].end == i
    &&& ts.len() == 0 ==> i == 0
    &&& ts.len() % 2 == 0 ==> i < text.len() && (i == 0 || text[i - 1] == '.')
    &&& ts.len() % 2 == 1 ==> i == text.len() || text[i] == '.'
}

proof fn lemma_path_next(text: Seq<char>, ts: Seq<Token>, i: int)
    requires
        is_path_text(text),
        path_prefix(text, ts, i),
        0 <= i < text.len(),
    ensures
        ts.len() % 2 == 0 ==> is_name_start(text[i]) && keyword_spec(text.subrange(i, name_end(text, i, false)))
            is None,
        ts.len() % 2 == 1 ==> text[i] == '.' && i + 1 < text.len() && is_name_start(text[i + 1]),
{
    if ts.len() % 2 == 0 {
        if i > 0 {
            assert(text[i - 1] == '.');
            assert(is_name_char(text[i - 1]) || (text[i - 1] == '.' && i < text.len() && is_name_start(text[i])));
        }
        assert(i == 0 || text[i - 1] == '.');
        assert(keyword_spec(text.subrange(i, name_end(text, i, false))) is None);
    } else {
        assert(is_name_char(text[i]) || (text[i] == '.' && i + 1 < text.len() && is_name_start(text[i + 1])));
    }
}

proof fn lemma_path_name_step(text: Seq<char>, ts: Seq<Token>, i: int, tok: Token)
    requires
        is_path_text(text),
        path_prefix(text, ts, i),
        0 <= i < tok.end <= text.len(),
        ts.len() % 2 == 0,
        tok.kind is Name,
        tok.start == i,
        tok.end < text.len() ==> !is_name_char(text[tok.end as int]),
    ensures
        path_prefix(text, ts.push(tok), tok.end as int),
{
    let e = tok.end as int;
    let t = ts.push(tok);
    if e < text.len() {
        assert(is_name_char(text[e]) || (text[e] == '.' && e + 1 < text.len() && is_name_start(text[e + 1])));
    }
    assert forall|k: int| 0 <= k < t.len() implies if k % 2 == 0 {
        (#[trigger] t[k]).kind is Name
    } else {
        t[k].kind == TokenKind::Sym('.')
    } by {
        if k < ts.len() {
            assert(t[k] == ts[k]);
        }
    }
    assert forall|k: int| 0 <= k < t.len() - 1 implies (#[trigger] t[k]).end == t[k + 1].start by {
        assert(t[k] == ts[k]);
        if k + 1 < ts.len() {
            assert(t[k + 1] == ts[k + 1]);
        }
    }
}

proof fn lemma_path_dot_step(text: Seq<char>, ts: Seq<Token>, i: int, tok: Token)
    requires
        path_prefix(text, ts, i),
        0 <= i,
        i + 1 < text.len(),
        text[i] == '.',
        ts.len() % 2 == 1,
        tok.kind == TokenKind::Sym('.'),
        tok.start == i,
        tok.end == i + 1,
    ensures
        path_prefix(text, ts.push(tok), i + 1),
{
    let t = ts.push(tok);
    assert forall|k: int| 0 <= k < t.len() implies if k % 2 == 0 {
        (#[trigger] t[k]).kind is Name
    } else {
        t[k].kind == TokenKind::Sym('.')
    } by {
        if k < ts.len() {
            assert(t[k] == ts[k]);
        }
    }
    assert forall|k: int| 0 <= k < t.len() - 1 implies (#[trigger] t[k]).end == t[k + 1].start by {
        assert(t[k] == ts[k]);
        if k + 1 < ts.len() {
            assert(t[k + 1] == ts[k + 1]);
        }
    }
}

/// The first line break at or after `i` in `cs` (the end of `cs` when there
/// is none).
pub open spec fn line_end(cs: Seq<char>, i: int) -> int
    decreases cs.len() - i,
{
    if 0 <= i < cs.len() && cs[i] != '\n' {
        line_end(cs, i + 1)
    } else {
        i
    }
}

/// The end of the run of digits from `i`.
pub open spec fn digits_end(cs: Seq<char>, i: int) -> int
    decreases cs.len() - i,
{
    if 0 <= i < cs.len() && is_digit(cs[i]) {
        digits_end(cs, i + 1)
    } else {
        i
    }
}

/// The value of the digits `cs[i..e]`, read in base ten and held at
/// `i64::MAX` once it grows past it.
pub open spec fn digits_value(cs: Seq<char>, i: int, e: int) -> i64
    decreases e - i,
{
    if e <= i {
        0
    } else {
        let v = digits_value(cs, i, e - 1);
        let d = cs[e - 1] as int - '0' as int;
        if v * 10 > i64::MAX || v * 10 + d > i64::MAX {
            i64::MAX
        } else {
            (v * 10 + d) as i64
        }
    }
}

/// The text `cs` from `i`, on line `line`, reads as the tokens `ts` from
/// the `k`-th on: line breaks, spaces, tabs and carriage returns separate
/// tokens; `--` starts a comment to the end of the line, which is a doc
/// token when it reads `---@tag ...` (spaces allowed before `@`) and its tag
/// reads; a name is a keyword token or a name token; digits make an integer
/// token; quotes enclose a string on one line; a symbol is a token of its
/// own. False when the text holds a character the language subset does
/// not have, or a string that is not closed on its line.
pub open spec fn lex_at(cs: Seq<char>, i: int, line: int, ts: Seq<Token>, k: int) -> bool
    decreases cs.len() - i,
{
    if i < 0 || i >= cs.len() {
        k == ts.len()
    } else {
        let c = cs[i];
        if c == '\n' {
            lex_at(cs, i + 1, line + 1, ts, k)
        } else if c == ' ' || c == '\t' || c == '\r' {
            lex_at(cs, i + 1, line, ts, k)
        } else if c == '-' && i + 1 < cs.len() && cs[i + 1] == '-' {
            let e = line_end(cs, i + 2);
            if e <= i || e > cs.len() {
                false
            } else if i + 2 < cs.len() && cs[i + 2] == '-' && spaces_end(cs, i + 3) < cs.len() && cs[spaces_end(
                cs,
                i + 3,
            )] == '@' {
                let at = spaces_end(cs, i + 3);
                ||| doc_tag_ok(cs, at + 1, None) && lex_at(cs, e, line, ts, k)
                ||| 0 <= k < ts.len() && ts[k].start == i && ts[k].end == e && ts[k].line == line && (
                ts[k].kind matches TokenKind::Doc(tag) && doc_tag_ok(cs, at + 1, Some(tag))) && lex_at(
                    cs,
                    e,
                    line,
                    ts,
                    k + 1,
                )
            } else {
                lex_at(cs, e, line, ts, k)
            }
        } else if is_name_start(c) {
            let e = name_end(cs, i, false);
            let w = cs.subrange(i, e);
            e > i && e <= cs.len() && 0 <= k < ts.len() && ts[k].start == i && ts[k].end == e && ts[k].line == line && (match keyword_spec(
                w,
            ) {
                Some(kw) => ts[k].kind == TokenKind::Keyword(kw),
                None => ts[k].kind matches TokenKind::Name(x) && x@ == w,
            }) && lex_at(cs, e, line, ts, k + 1)
        } else if is_digit(c) {
            let e = digits_end(cs, i);
            e > i && e <= cs.len() && 0 <= k < ts.len() && ts[k].start == i && ts[k].end == e && ts[k].line == line && ts[k].kind
                == TokenKind::Int(digits_value(cs, i, e)) && lex_at(cs, e, line, ts, k + 1)
        } else if c == '"' || c == '\'' {
            match quote_end(cs, i + 1, c) {
                Some(e) => e > i && e <= cs.len() && 0 <= k < ts.len() && ts[k].start == i && ts[k].end == e && ts[k].line == line && (
                ts[k].kind matches TokenKind::Str(v) && v@ == cs.subrange(i + 1, e - 1)) && lex_at(cs, e, line, ts, k + 1),
                None => false,
            }
        } else if is_symbol_spec(c) {
            0 <= k < ts.len() && ts[k].start == i && ts[k].end == i + 1 && ts[k].line == line && ts[k].kind
                == TokenKind::Sym(c) && lex_at(cs, i + 1, line, ts, k + 1)
        } else {
            false
        }
    }
}

/// The text `cs` from `i` does not read as tokens: it holds a character the
/// language subset does not have, or a string not closed on its line.
pub open spec fn lex_fails(cs: Seq<char>, i: int) -> bool
    decreases cs.len() - i,
{
    if i < 0 || i >= cs.len() {
        false
    } else {
        let c = cs[i];
        if c == '\n' || c == ' ' || c == '\t' || c == '\r' {
            lex_fails(cs, i + 1)
        } else if c == '-' && i + 1 < cs.len() && cs[i + 1] == '-' {
            let e = line_end(cs, i + 2);
            if e <= i || e > cs.len() {
                true
            } else {
                lex_fails(cs, e)
            }
        } else if is_name_start(c) {
            let e = name_end(cs, i, false);
            if e <= i || e > cs.len() {
                true
            } else {
                lex_fails(cs, e)
            }
        } else if is_digit(c) {
            let e = digits_end(cs, i);
            if e <= i || e > cs.len() {
                true
            } else {
                lex_fails(cs, e)
            }
        } else if c == '"' || c == '\'' {
            match quote_end(cs, i + 1, c) {
                Some(e) => if e <= i || e > cs.len() {
                    true
                } else {
                    lex_fails(cs, e)
                },
                None => true,
            }
        } else if is_symbol_spec(c) {
            lex_fails(cs, i + 1)
        } else {
            true
        }
    }
}

/// The tokens `pre` read so far lead, read on from `i` on line `line`, to a
/// reading of the whole text: any `out` that starts with `pre` and reads
/// from `i` reads from the start.
pub open spec fn lex_prefix_ok(cs: Seq<char>, i: int, line: int, pre: Seq<Token>) -> bool {
    forall|out: Seq<Token>|
        out.len() >= pre.len() && out.subrange(0, pre.len() as int) == pre && #[trigger] lex_at(
            cs,
            i,
            line,
            out,
            pre.len() as int,
        ) ==> lex_at(cs, 0, 0, out, 0)
}

proof fn lemma_lex_advance(cs: Seq<char>, i: int, line: int, pre: Seq<Token>, i2: int, line2: int)
    requires
        lex_prefix_ok(cs, i, line, pre),
        forall|out: Seq<Token>| #[trigger] lex_at(cs, i2, line2, out, pre.len() as int) ==> lex_at(cs, i, line, out, pre.len() as int),
    ensures
        lex_prefix_ok(cs, i2, line2, pre),
{
    assert forall|out: Seq<Token>|
        out.len() >= pre.len() && out.subrange(0, pre.len() as int) == pre && #[trigger] lex_at(
            cs,
            i2,
            line2,
            out,
            pre.len() as int,
        ) implies lex_at(cs, 0, 0, out, 0) by {
        assert(lex_at(cs, i, line, out, pre.len() as int));
    }
}

proof fn lemma_lex_push(cs: Seq<char>, i: int, line: int, pre: Seq<Token>, tok: Token, i2: int, line2: int)
    requires
        lex_prefix_ok(cs, i, line, pre),
        forall|out: Seq<Token>|
            out.len() > pre.len() && out[pre.len() as int] == tok && #[trigger] lex_at(cs, i2, line2, out, (pre.len() + 1) as int)
                ==> lex_at(cs, i, line, out, pre.len() as int),
    ensures
        lex_prefix_ok(cs, i2, line2, pre.push(tok)),
{
    let p2 = pre.push(tok);
    assert forall|out: Seq<Token>|
        out.len() >= p2.len() && out.subrange(0, p2.len() as int) == p2 && #[trigger] lex_at(
            cs,
            i2,
            line2,
            out,
            p2.len() as int,
        ) implies lex_at(cs, 0, 0, out, 0) by {
        assert(out[pre.len() as int] == out.subrange(0, p2.len() as int)[pre.len() as int]);
        assert(out.subrange(0, pre.len() as int) =~= p2.subrange(0, pre.len() as int));
        assert(p2.subrange(0, pre.len() as int) =~= pre);
        assert(lex_at(cs, i, line, out, pre.len() as int));
    }
}

/// Splits `text` into tokens; `None` for a character the language subset
/// does not have, an unterminated string, or a text too long to address.
pub(crate) fn tokenize(text: &str) -> (r: Option<Vec<Token>>)
    ensures
        r matches Some(ts) ==> tokens_ok(text@, ts@),
        is_single_word(text@) ==> (r matches Some(ts) && ts@.len() == 1 && ts@[0].start == 0 && ts@[0].end
            == text@.len()),
        r matches Some(ts) ==> ts@.len() <= text@.len(),
        is_path_text(text@) ==> (r matches Some(ts) && path_tokens_of(text@, ts@)),
        r is None <==> (text@.len() >= u32::MAX || lex_fails(text@, 0)),
        r matches Some(ts) ==> lex_at(text@, 0, 0, ts@, 0),
{
    let cs = chars_of(text);
    let n = cs.len();
    if n >= u32::MAX as usize {
        return None;
    }
    assert(lex_prefix_ok(cs@, 0, 0, Seq::<Token>::empty())) by {
        assert forall|out: Seq<Token>|
            out.len() >= 0 && out.subrange(0, 0) == Seq::<Token>::empty() && #[trigger] lex_at(cs@, 0, 0, out, 0) implies lex_at(
            cs@,
            0,
            0,
            out,
            0,
        ) by {}
    }
    let mut tokens: Vec<Token> = Vec::new();
    let mut i: usize = 0;
    let mut line: u32 = 0;
    let ghost path = is_path_text(text@);
    while i < n
        invariant
            cs@ == text@,
            n == cs@.len(),
            n < u32::MAX,
            i <= n,
            line <= i,
            tokens_ok(text@, tokens@),
            forall|k: int| 0 <= k < tokens@.len() ==> (#[trigger] tokens@[k]).end <= i,
            is_single_word(text@) ==> ((i == 0 && tokens@.len() == 0) || (i == n && tokens@.len() == 1
                && tokens@[0].start == 0 && tokens@[0].end == n)),
            tokens@.len() <= i,
            path == is_path_text(text@),
            path ==> path_prefix(text@, tokens@, i as int),
            lex_prefix_ok(cs@, i as int, line as int, tokens@),
            lex_fails(cs@, 0) == lex_fails(cs@, i as int),
        decreases n - i,
    {
        let ghost i0 = i as int;
        let ghost l0 = line as int;
        let ghost k0 = tokens@.len() as int;
        let ghost t0 = tokens@;
        proof {
            if path {
                lemma_path_next(text@, tokens@, i as int);
            }
        }
        let c = cs[i];
        if c == '\n' {
            line = line + 1;
            i = i + 1;
            proof {
                lemma_lex_advance(cs@, i0, l0, t0, i as int, line as int);
            }
        } else if c == ' ' || c == '\t' || c == '\r' {
            i = i + 1;
            proof {
                lemma_lex_advance(cs@, i0, l0, t0, i as int, line as int);
            }
        } else if c == '-' && i + 1 < n && cs[i + 1] == '-' {
            // A comment, to the end of the line.
            let mut e = i + 2;
            while e < n && cs[e] != '\n'
                invariant
                    n == cs@.len(),
                    i + 2 <= e <= n,
                    line_end(cs@, i + 2) == line_end(cs@, e as int),
                decreases n - e,
            {
                e = e + 1;
            }
            let mut pushed = false;
            if n - i >= 3 && cs[i + 2] == '-' {
                // A doc comment: `---@tag ...`, or `--- @tag ...`.
                let at = skip_spaces(&cs, i + 3);
                if at < n && cs[at] == '@' {
                    let found = scan_doc_tag(text, &cs, at + 1);
                    assert(doc_tag_ok(cs@, at + 1, found));
                    if let Some(tag) = found {
                        let tok = Token { kind: TokenKind::Doc(tag), start: i as u32, end: e as u32, line };
                        tokens.push(tok);
                        pushed = true;
                        proof {
                            lemma_lex_push(cs@, i0, l0, t0, tok, e as int, l0);
                        }
                    }
                }
            }
            if !pushed {
                proof {
                    lemma_lex_advance(cs@, i0, l0, t0, e as int, l0);
                }
            }
            i = e;
        } else if name_start(c) {
            let e = scan_name(&cs, i + 1, false);
            let w = word(text, i, e);
            let kind = match keyword_of(&w) {
                Some(k) => TokenKind::Keyword(k),
                None => TokenKind::Name(w),
            };
            assert(e > i);
            let tok = Token { kind, start: i as u32, end: e as u32, line };
            tokens.push(tok);
            proof {
                assert(e == name_end(cs@, i as int, false));
                lemma_lex_push(cs@, i0, l0, t0, tok, e as int, l0);
                if path {
                    assert(e == name_end(cs@, i as int, false));
                    lemma_path_name_step(text@, t0, i as int, tok);
                }
            }
            i = e;
        } else if digit(c) {
            let mut v: i64 = 0;
            let mut e = i;
            while e < n && digit(cs[e])
                invariant
                    n == cs@.len(),
                    i <= e <= n,
                    e == i ==> is_digit(cs@[i as int]),
                    forall|j: int| i <= j < e ==> is_digit(#[trigger] cs@[j]),
                    digits_end(cs@, i as int) == digits_end(cs@, e as int),
                    v == digits_value(cs@, i as int, e as int),
                    v >= 0,
                decreases n - e,
            {
                let d = (cs[e] as u32 - '0' as u32) as i64;
                assert(d == cs@[e as int] as int - '0' as int);
                v = match v.checked_mul(10) {
                    Some(m) => match m.checked_add(d) {
                        Some(s) => s,
                        None => i64::MAX,
                    },
                    None => i64::MAX,
                };
                e = e + 1;
            }
            assert(e > i);
            let tok = Token { kind: TokenKind::Int(v), start: i as u32, end: e as u32, line };
            tokens.push(tok);
            proof {
                lemma_lex_push(cs@, i0, l0, t0, tok, e as int, l0);
            }
            i = e;
        } else if c == '"' || c == '\'' {
            let mut e = i + 1;
            while e < n && cs[e] != c && cs[e] != '\n'
                invariant
                    n == cs@.len(),
                    i + 1 <= e <= n,
                    c == cs@[i as int],
                    quote_end(cs@, i + 1, c) == quote_end(cs@, e as int, c),
                decreases n - e,
            {
                e = e + 1;
            }
            if e >= n || cs[e] != c {
                return None;
            }
            let s = word(text, i + 1, e);
            let tok = Token { kind: TokenKind::Str(s), start: i as u32, end: (e + 1) as u32, line };
            tokens.push(tok);
            proof {
                lemma_lex_push(cs@, i0, l0, t0, tok, e + 1, l0);
            }
            i = e + 1;
        } else if is_symbol(c) {
            let tok = Token { kind: TokenKind::Sym(c), start: i as u32, end: (i + 1) as u32, line };
            tokens.push(tok);
            proof {
                lemma_lex_push(cs@, i0, l0, t0, tok, i + 1, l0);
                if path {
                    lemma_path_dot_step(text@, t0, i as int, tok);
                }
            }
            i = i + 1;
        } else {
            return None;
        }
    }
    proof {
        if path {
            assert(tokens@.len() % 2 == 1);
        }
        assert(tokens@.subrange(0, tokens@.len() as int) =~= tokens@);
        assert(lex_at(cs@, i as int, line as int, tokens@, tokens@.len() as int));
    }
    Some(tokens)
}

} // verus!
