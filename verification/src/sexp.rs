//! The bracketed textual form a graph description is written in, and its
//! parser: whitespace and `;` line comments between tokens, parenthesised
//! lists, double-quoted strings with backslash escapes, `#t` and `#f`,
//! decimal number literals, and symbols.
use vstd::prelude::*;

use crate::numeric::bits_of_decimal;
use crate::numeric::dbl_parse;
use crate::strings::str_eq;

verus! {

broadcast use vstd::std_specs::vec::axiom_vec_index_decreases;

/// One parsed form: a symbol, a string, a number (the bits of the double
/// its literal denotes), a boolean, or a list of forms.
#[derive(Debug)]
pub enum Sexp {
    Sym(String),
    Str(String),
    Num(u64),
    Bool(bool),
    List(Vec<Sexp>),
}

/// The mathematical content of a parsed form.
pub enum GSexp {
    Sym(Seq<char>),
    Str(Seq<char>),
    Num(u64),
    Bool(bool),
    List(Seq<GSexp>),
}

/// The mathematical content of one parsed form.
pub open spec fn gsexp_of(x: Sexp) -> GSexp
    decreases x, 0int,
{
    match x {
        Sexp::Sym(s) => GSexp::Sym(s@),
        Sexp::Str(s) => GSexp::Str(s@),
        Sexp::Num(b) => GSexp::Num(b),
        Sexp::Bool(b) => GSexp::Bool(b),
        Sexp::List(v) => GSexp::List(views_of(v@)),
    }
}

/// The mathematical content of a sequence of parsed forms.
pub open spec fn views_of(v: Seq<Sexp>) -> Seq<GSexp>
    decreases v, 1int,
{
    if v.len() == 0 {
        Seq::empty()
    } else {
        seq![gsexp_of(v[0])] + views_of(v.subrange(1, v.len() as int))
    }
}

impl View for Sexp {
    type V = GSexp;

    open spec fn view(&self) -> GSexp {
        gsexp_of(*self)
    }
}

impl Clone for Sexp {
    /// A clone carries the same content.
    fn clone(&self) -> (r: Sexp)
        ensures
            r@ == self@,
        decreases self,
    {
        match self {
            Sexp::Sym(s) => Sexp::Sym(s.clone()),
            Sexp::Str(s) => Sexp::Str(s.clone()),
            Sexp::Num(b) => Sexp::Num(*b),
            Sexp::Bool(b) => Sexp::Bool(*b),
            Sexp::List(v) => {
                let mut out: Vec<Sexp> = Vec::new();
                let n = v.len();
                let mut i: usize = 0;
                while i < n
                    invariant
                        0 <= i <= n,
                        n == v@.len(),
                        *self == Sexp::List(*v),
                        out@.len() == i,
                        forall|j: int| 0 <= j < i ==> (#[trigger] out@[j])@ == v@[j]@,
                    decreases n - i,
                {
                    proof {
                        assert(decreases_to!(*self => self->List_0));
                        vstd::std_specs::vec::axiom_vec_index_decreases(*v, i as int);
                    }
                    out.push(v[i].clone());
                    i += 1;
                }
                proof {
                    lemma_views_of(out@);
                    lemma_views_of(v@);
                    assert forall|j: int| 0 <= j < v@.len() implies views_of(out@)[j] == views_of(
                        v@,
                    )[j] by {
                        assert(views_of(out@)[j] == out@[j]@);
                        assert(views_of(v@)[j] == v@[j]@);
                    }
                    assert(views_of(out@) =~= views_of(v@));
                }
                Sexp::List(out)
            },
        }
    }
}

/// The content of a sequence of forms, element by element.
pub proof fn lemma_views_of(v: Seq<Sexp>)
    ensures
        views_of(v).len() == v.len(),
        forall|i: int| 0 <= i < v.len() ==> views_of(v)[i] == (#[trigger] v[i])@,
    decreases v.len(),
{
    if v.len() > 0 {
        lemma_views_of(v.subrange(1, v.len() as int));
        assert(forall|i: int|
            1 <= i < v.len() ==> v.subrange(1, v.len() as int)[i - 1] == (#[trigger] v[i]));
    }
}

/// One more form extends the content of a sequence of forms.
pub proof fn lemma_views_of_push(v: Seq<Sexp>, x: Sexp)
    ensures
        views_of(v.push(x)) == views_of(v).push(gsexp_of(x)),
    decreases v.len(),
{
    if v.len() == 0 {
        assert(v.push(x)[0] == x);
        assert(v.push(x).subrange(1, 1) =~= Seq::<Sexp>::empty());
        assert(views_of(v.push(x)) == seq![gsexp_of(x)] + views_of(Seq::<Sexp>::empty()));
        assert(views_of(Seq::<Sexp>::empty()) == Seq::<GSexp>::empty());
        assert(views_of(v) == Seq::<GSexp>::empty());
        assert(views_of(v.push(x)) =~= views_of(v).push(gsexp_of(x)));
    } else {
        assert(v.push(x)[0] == v[0]);
        assert(v.push(x).subrange(1, (v.len() + 1) as int) =~= v.subrange(
            1,
            v.len() as int,
        ).push(x));
        lemma_views_of_push(v.subrange(1, v.len() as int), x);
        assert(views_of(v.push(x)) == seq![gsexp_of(v[0])] + views_of(
            v.subrange(1, v.len() as int).push(x),
        ));
        assert(views_of(v.push(x)) =~= views_of(v).push(gsexp_of(x)));
    }
}

/// An atom's end never lies before its start.
proof fn lemma_atom_end_lb(s: Seq<char>, i: int)
    requires
        0 <= i <= s.len(),
    ensures
        i <= atom_end(s, i) <= s.len(),
    decreases s.len() - i,
{
    if i < s.len() && !is_delim(s[i]) {
        lemma_atom_end_lb(s, i + 1);
    }
}

/// Whitespace between tokens.
pub open spec fn is_ws(c: char) -> bool {
    c == ' ' || c == '\t' || c == '\r' || c == '\n'
}

/// A character that ends an atom.
pub open spec fn is_delim(c: char) -> bool {
    is_ws(c) || c == '(' || c == ')' || c == '"' || c == ';'
}

/// A decimal digit.
pub open spec fn is_digit(c: char) -> bool {
    (c as u32) >= 48 && (c as u32) <= 57
}

/// The first position at or after `i` that is neither whitespace nor
/// inside a `;` line comment.
pub open spec fn skip_trivia(s: Seq<char>, i: int, in_comment: bool) -> int
    decreases s.len() - i,
{
    if i < 0 || i >= s.len() {
        i
    } else if in_comment {
        skip_trivia(s, i + 1, s[i] != '\n')
    } else if is_ws(s[i]) {
        skip_trivia(s, i + 1, false)
    } else if s[i] == ';' {
        skip_trivia(s, i + 1, true)
    } else {
        i
    }
}

/// The first position at or after `i` that ends an atom.
pub open spec fn atom_end(s: Seq<char>, i: int) -> int
    decreases s.len() - i,
{
    if i < 0 || i >= s.len() {
        i
    } else if is_delim(s[i]) {
        i
    } else {
        atom_end(s, i + 1)
    }
}

/// What a backslash escape stands for.
pub open spec fn unescaped(c: char) -> char {
    if c == 'n' {
        '\n'
    } else if c == 't' {
        '\t'
    } else {
        c
    }
}

/// The content and end of a string literal, scanned from just after the
/// opening quote; `None` on an unterminated literal.
pub open spec fn scan_string(s: Seq<char>, i: int) -> Option<(Seq<char>, int)>
    decreases s.len() - i,
{
    if i < 0 || i >= s.len() {
        None
    } else if s[i] == '"' {
        Some((Seq::empty(), i + 1))
    } else if s[i] == '\\' {
        if i + 1 >= s.len() {
            None
        } else {
            match scan_string(s, i + 2) {
                Some((rest, e)) => Some((seq![unescaped(s[i + 1])] + rest, e)),
                None => None,
            }
        }
    } else {
        match scan_string(s, i + 1) {
            Some((rest, e)) => Some((seq![s[i]] + rest, e)),
            None => None,
        }
    }
}

/// Whether an atom is written like a number: it starts with a digit, or
/// with a sign or point followed by a digit.
pub open spec fn numeric_shaped(a: Seq<char>) -> bool {
    a.len() > 0 && (is_digit(a[0]) || ((a[0] == '+' || a[0] == '-' || a[0] == '.') && a.len() >= 2
        && is_digit(a[1])))
}

/// What an atom denotes: a boolean for `#t` and `#f`, a number for a
/// numeric-shaped atom whose literal parses, an error (`None`) for one
/// whose literal does not, and a symbol otherwise.
pub open spec fn classify_atom(a: Seq<char>) -> Option<GSexp> {
    if a == "#t"@ {
        Some(GSexp::Bool(true))
    } else if a == "#f"@ {
        Some(GSexp::Bool(false))
    } else if numeric_shaped(a) {
        match bits_of_decimal(a) {
            Some(b) => Some(GSexp::Num(b)),
            None => None,
        }
    } else {
        Some(GSexp::Sym(a))
    }
}

/// One form read at position `i` (trivia skipped first), and the position
/// just after it; `None` where no well-formed form starts there.
pub open spec fn spec_parse(s: Seq<char>, i: int) -> Option<(GSexp, int)>
    decreases s.len() - i, 0int,
{
    let j = skip_trivia(s, i, false);
    if j < i || j >= s.len() {
        None
    } else if s[j] == '(' {
        match spec_parse_list(s, j + 1) {
            Some((items, e)) => Some((GSexp::List(items), e)),
            None => None,
        }
    } else if s[j] == '"' {
        match scan_string(s, j + 1) {
            Some((content, e)) => Some((GSexp::Str(content), e)),
            None => None,
        }
    } else if s[j] == ')' {
        None
    } else {
        let e = atom_end(s, j);
        if e <= j {
            None
        } else {
            match classify_atom(s.subrange(j, e)) {
                Some(g) => Some((g, e)),
                None => None,
            }
        }
    }
}

/// The forms read until a closing parenthesis, and the position just
/// after it; `None` where the list is unterminated or a form is bad.
pub open spec fn spec_parse_list(s: Seq<char>, i: int) -> Option<(Seq<GSexp>, int)>
    decreases s.len() - i, 1int,
{
    let j = skip_trivia(s, i, false);
    if j < i || j >= s.len() {
        None
    } else if s[j] == ')' {
        Some((Seq::empty(), j + 1))
    } else {
        match spec_parse(s, j) {
            Some((x, e)) => if e <= j || e > s.len() {
                None
            } else {
                match spec_parse_list(s, e) {
                    Some((rest, e2)) => Some((seq![x] + rest, e2)),
                    None => None,
                }
            },
            None => None,
        }
    }
}

/// The characters of a text, for random access while parsing.
pub fn str_chars(s: &str) -> (r: Vec<char>)
    ensures
        r@ == s@,
{
    let n = s.unicode_len();
    let mut r: Vec<char> = Vec::new();
    let mut i: usize = 0;
    while i < n
        invariant
            0 <= i <= n,
            n == s@.len(),
            r@ == s@.take(i as int),
        decreases n - i,
    {
        r.push(s.get_char(i));
        proof {
            assert(r@ =~= s@.take(i as int + 1));
        }
        i += 1;
    }
    proof {
        assert(s@.take(n as int) =~= s@);
    }
    r
}

/// A decimal digit, decided.
fn digit(c: char) -> (r: bool)
    ensures
        r == is_digit(c),
{
    let u = c as u32;
    48 <= u && u <= 57
}

/// Trivia skipped, decided: see [`skip_trivia`].
fn skip_trivia_exec(chars: &Vec<char>, i: usize) -> (r: usize)
    requires
        i <= chars@.len(),
    ensures
        r as int == skip_trivia(chars@, i as int, false),
        i <= r <= chars@.len(),
        r < chars@.len() ==> !is_ws(chars@[r as int]) && chars@[r as int] != ';',
{
    let n = chars.len();
    let mut cur = i;
    let mut in_comment = false;
    while cur < n
        invariant
            i <= cur <= n,
            n == chars@.len(),
            skip_trivia(chars@, i as int, false) == skip_trivia(chars@, cur as int, in_comment),
        decreases n - cur,
    {
        let c = chars[cur];
        if in_comment {
            in_comment = c != '\n';
            cur += 1;
        } else if c == ' ' || c == '\t' || c == '\r' || c == '\n' {
            cur += 1;
        } else if c == ';' {
            in_comment = true;
            cur += 1;
        } else {
            return cur;
        }
    }
    cur
}

/// An atom's end, decided: see [`atom_end`].
fn atom_end_exec(chars: &Vec<char>, i: usize) -> (r: usize)
    requires
        i <= chars@.len(),
    ensures
        r as int == atom_end(chars@, i as int),
        i <= r <= chars@.len(),
{
    let n = chars.len();
    let mut cur = i;
    while cur < n
        invariant
            i <= cur <= n,
            n == chars@.len(),
            atom_end(chars@, i as int) == atom_end(chars@, cur as int),
        decreases n - cur,
    {
        let c = chars[cur];
        if c == ' ' || c == '\t' || c == '\r' || c == '\n' || c == '(' || c == ')' || c == '"' || c
            == ';' {
            return cur;
        }
        cur += 1;
    }
    cur
}

/// A string literal's content, read from just after the opening quote:
/// see [`scan_string`].
fn scan_string_exec(s: &str, chars: &Vec<char>, i: usize) -> (r: Result<(String, usize), String>)
    requires
        chars@ == s@,
        i <= chars@.len(),
    ensures
        match r {
            Ok(p) => scan_string(s@, i as int) == Some((p.0@, p.1 as int)) && i < p.1
                <= chars@.len(),
            Err(_) => scan_string(s@, i as int) is None,
        },
{
    let n = chars.len();
    let mut acc = String::new();
    let mut cur = i;
    loop
        invariant
            i <= cur <= n,
            n == chars@.len(),
            chars@ == s@,
            match scan_string(s@, cur as int) {
                Some(p) => scan_string(s@, i as int) == Some((acc@ + p.0, p.1)),
                None => scan_string(s@, i as int) is None,
            },
        decreases n - cur,
    {
        if cur >= n {
            return Err("Unterminated string literal".to_owned());
        }
        let c = chars[cur];
        if c == '"' {
            proof {
                assert(acc@ + Seq::<char>::empty() =~= acc@);
            }
            return Ok((acc, cur + 1));
        } else if c == '\\' {
            if cur + 1 >= n {
                return Err("Unterminated string literal".to_owned());
            }
            let esc = chars[cur + 1];
            let ghost acc0 = acc@;
            if esc == 'n' {
                acc.append("\n");
                proof {
                    reveal_strlit("\n");
                    assert(acc@ =~= acc0 + seq![unescaped(esc)]);
                }
            } else if esc == 't' {
                acc.append("\t");
                proof {
                    reveal_strlit("\t");
                    assert(acc@ =~= acc0 + seq![unescaped(esc)]);
                }
            } else {
                acc.append(s.substring_char(cur + 1, cur + 2));
                proof {
                    assert(s@.subrange(cur as int + 1, cur as int + 2) =~= seq![esc]);
                    assert(acc@ =~= acc0 + seq![unescaped(esc)]);
                }
            }
            proof {
                match scan_string(s@, cur as int + 2) {
                    Some(p) => {
                        assert(acc0 + (seq![unescaped(esc)] + p.0) =~= acc@ + p.0);
                    },
                    None => {},
                }
            }
            cur += 2;
        } else {
            let ghost acc0 = acc@;
            acc.append(s.substring_char(cur, cur + 1));
            proof {
                assert(s@.subrange(cur as int, cur as int + 1) =~= seq![c]);
                assert(acc@ =~= acc0 + seq![c]);
                match scan_string(s@, cur as int + 1) {
                    Some(p) => {
                        assert(acc0 + (seq![c] + p.0) =~= acc@ + p.0);
                    },
                    None => {},
                }
            }
            cur += 1;
        }
    }
}

/// One form read at a position, decided: see [`spec_parse`].
pub fn parse_sexp(s: &str, chars: &Vec<char>, i: usize) -> (r: Result<(Sexp, usize), String>)
    requires
        chars@ == s@,
        i <= chars@.len(),
    ensures
        match r {
            Ok(p) => spec_parse(s@, i as int) == Some((p.0@, p.1 as int)) && i < p.1
                <= chars@.len(),
            Err(_) => spec_parse(s@, i as int) is None,
        },
    decreases chars@.len() - i, 0int,
{
    let j = skip_trivia_exec(chars, i);
    if j >= chars.len() {
        return Err("Expected a form".to_owned());
    }
    let c = chars[j];
    if c == '(' {
        match parse_list(s, chars, j + 1) {
            Ok((items, e)) => Ok((Sexp::List(items), e)),
            Err(e) => Err(e),
        }
    } else if c == '"' {
        match scan_string_exec(s, chars, j + 1) {
            Ok((content, e)) => Ok((Sexp::Str(content), e)),
            Err(e) => Err(e),
        }
    } else if c == ')' {
        Err("Unexpected closing parenthesis".to_owned())
    } else {
        let e = atom_end_exec(chars, j);
        proof {
            assert(!is_delim(chars@[j as int]));
            assert(atom_end(chars@, j as int) == atom_end(chars@, j as int + 1));
            lemma_atom_end_lb(chars@, j as int + 1);
            assert(e > j);
        }
        let atom = s.substring_char(j, e).to_owned();
        let ghost av = s@.subrange(j as int, e as int);
        if str_eq(atom.as_str(), "#t") {
            Ok((Sexp::Bool(true), e))
        } else if str_eq(atom.as_str(), "#f") {
            Ok((Sexp::Bool(false), e))
        } else {
            let shaped = if digit(chars[j]) {
                true
            } else if (chars[j] == '+' || chars[j] == '-' || chars[j] == '.') && j + 1 < e {
                digit(chars[j + 1])
            } else {
                false
            };
            proof {
                assert(av.len() == e - j);
                assert(av[0] == chars@[j as int]);
                if j + 1 < e {
                    assert(av[1] == chars@[j as int + 1]);
                }
                assert(shaped == numeric_shaped(av));
            }
            if shaped {
                match dbl_parse(atom.as_str()) {
                    Some(b) => Ok((Sexp::Num(b), e)),
                    None => Err("unexpected number type".to_owned()),
                }
            } else {
                Ok((Sexp::Sym(atom), e))
            }
        }
    }
}

/// The forms read until a closing parenthesis, decided: see
/// [`spec_parse_list`].
pub fn parse_list(s: &str, chars: &Vec<char>, i: usize) -> (r: Result<(Vec<Sexp>, usize), String>)
    requires
        chars@ == s@,
        i <= chars@.len(),
    ensures
        match r {
            Ok(p) => spec_parse_list(s@, i as int) == Some((views_of(p.0@), p.1 as int)) && i < p.1
                <= chars@.len(),
            Err(_) => spec_parse_list(s@, i as int) is None,
        },
    decreases chars@.len() - i, 1int,
{
    let n = chars.len();
    let mut items: Vec<Sexp> = Vec::new();
    let mut cur = i;
    proof {
        lemma_views_of(items@);
        assert(views_of(items@) =~= Seq::<GSexp>::empty());
    }
    loop
        invariant
            i <= cur <= n,
            n == chars@.len(),
            chars@ == s@,
            match spec_parse_list(s@, cur as int) {
                Some(p) => spec_parse_list(s@, i as int) == Some((views_of(items@) + p.0, p.1)),
                None => spec_parse_list(s@, i as int) is None,
            },
        decreases n - cur,
    {
        let j = skip_trivia_exec(chars, cur);
        if j >= n {
            return Err("Unterminated form".to_owned());
        }
        if chars[j] == ')' {
            proof {
                assert(spec_parse_list(s@, cur as int) == Some(
                    (Seq::<GSexp>::empty(), j as int + 1),
                ));
                assert(views_of(items@) + Seq::<GSexp>::empty() =~= views_of(items@));
            }
            return Ok((items, j + 1));
        }
        match parse_sexp(s, chars, j) {
            Ok((x, e)) => {
                let ghost gx = x@;
                let ghost items0 = items@;
                items.push(x);
                proof {
                    assert(items@ == items0.push(items@[items0.len() as int]));
                    lemma_views_of_push(items0, items@[items0.len() as int]);
                    assert(views_of(items@) == views_of(items0).push(gx));
                    match spec_parse_list(s@, e as int) {
                        Some(p) => {
                            assert(views_of(items0) + (seq![gx] + p.0) =~= views_of(items@) + p.0);
                        },
                        None => {},
                    }
                }
                cur = e;
            },
            Err(e) => {
                return Err(e);
            },
        }
    }
}

/// Every top-level form of a source text, decided: see
/// [`spec_parse_all`]. This is how a description's text becomes the forms
/// the interpreter runs.
pub fn parse_sexps(source: &str) -> (r: Result<Vec<Sexp>, String>)
    ensures
        match r {
            Ok(v) => spec_parse_all(source@, 0) == Some(views_of(v@)),
            Err(_) => spec_parse_all(source@, 0) is None,
        },
{
    let chars = str_chars(source);
    let n = chars.len();
    let mut items: Vec<Sexp> = Vec::new();
    let mut cur: usize = 0;
    proof {
        lemma_views_of(items@);
        assert(views_of(items@) =~= Seq::<GSexp>::empty());
    }
    loop
        invariant
            0 <= cur <= n,
            n == chars@.len(),
            chars@ == source@,
            match spec_parse_all(source@, cur as int) {
                Some(rest) => spec_parse_all(source@, 0) == Some(views_of(items@) + rest),
                None => spec_parse_all(source@, 0) is None,
            },
        decreases n - cur,
    {
        let j = skip_trivia_exec(&chars, cur);
        if j >= n {
            proof {
                assert(spec_parse_all(source@, cur as int) == Some(Seq::<GSexp>::empty()));
                assert(views_of(items@) + Seq::<GSexp>::empty() =~= views_of(items@));
            }
            return Ok(items);
        }
        match parse_sexp(source, &chars, j) {
            Ok((x, e)) => {
                let ghost gx = x@;
                let ghost items0 = items@;
                items.push(x);
                proof {
                    assert(items@ == items0.push(items@[items0.len() as int]));
                    lemma_views_of_push(items0, items@[items0.len() as int]);
                    assert(views_of(items@) == views_of(items0).push(gx));
                    match spec_parse_all(source@, e as int) {
                        Some(rest) => {
                            assert(views_of(items0) + (seq![gx] + rest) =~= views_of(items@)
                                + rest);
                        },
                        None => {},
                    }
                }
                cur = e;
            },
            Err(e) => {
                return Err(e);
            },
        }
    }
}

/// Every top-level form of a source text; `None` where the text is not a
/// sequence of well-formed forms.
pub open spec fn spec_parse_all(s: Seq<char>, i: int) -> Option<Seq<GSexp>>
    decreases s.len() - i,
{
    let j = skip_trivia(s, i, false);
    if j < i {
        None
    } else if j >= s.len() {
        Some(Seq::empty())
    } else {
        match spec_parse(s, j) {
            Some((x, e)) => if e <= j || e > s.len() {
                None
            } else {
                match spec_parse_all(s, e) {
                    Some(rest) => Some(seq![x] + rest),
                    None => None,
                }
            },
            None => None,
        }
    }
}

} // verus!
