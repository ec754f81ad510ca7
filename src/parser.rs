use vstd::prelude::*;
use vstd::string::*;
use crate::env::Env;
use crate::term::{PrimOp, STerm, Term};

verus! {

pub open spec fn is_ws(c: char) -> bool {
    c == ' ' || c == '\t' || c == '\n' || c == '\r'
}

pub open spec fn is_alpha(c: char) -> bool {
    ('a' <= c && c <= 'z') || ('A' <= c && c <= 'Z')
}

pub open spec fn is_digit(c: char) -> bool {
    '0' <= c && c <= '9'
}

pub open spec fn is_ident_char(c: char) -> bool {
    is_alpha(c) || is_digit(c) || c == '_'
}

/// The classes of characters that the scanner skips over in runs.
pub enum CharClass {
    Space,
    IdentTail,
    Digit,
}

pub open spec fn in_class(c: char, class: CharClass) -> bool {
    match class {
        CharClass::Space => is_ws(c),
        CharClass::IdentTail => is_ident_char(c),
        CharClass::Digit => is_digit(c),
    }
}

/// The number of leading characters of `r` in `class`.
pub open spec fn run_len(r: Seq<char>, class: CharClass) -> nat
    decreases r.len(),
{
    if r.len() > 0 && in_class(r[0], class) {
        1 + run_len(r.drop_first(), class)
    } else {
        0
    }
}

/// `r` without its leading whitespace.
pub open spec fn skip_ws(r: Seq<char>) -> Seq<char> {
    r.skip(run_len(r, CharClass::Space) as int)
}

/// Skips whitespace, then `tag`, then whitespace again.
pub open spec fn ws_tag(r: Seq<char>, tag: Seq<char>) -> Option<Seq<char>> {
    let r1 = skip_ws(r);
    if r1.len() >= tag.len() && r1.take(tag.len() as int) == tag {
        Some(skip_ws(r1.skip(tag.len() as int)))
    } else {
        None
    }
}

pub open spec fn is_keyword(name: Seq<char>) -> bool {
    name == seq!['i', 'f'] || name == seq!['t', 'h', 'e', 'n'] || name == seq!['e', 'l', 's', 'e']
        || name == seq!['t', 'r', 'u', 'e'] || name == seq!['f', 'a', 'l', 's', 'e']
}

/// An identifier: an ASCII letter, then letters, digits and underscores; not a reserved word.
pub open spec fn ident_spec(r: Seq<char>) -> Option<(Seq<char>, Seq<char>)> {
    if r.len() > 0 && is_alpha(r[0]) {
        let n = 1 + run_len(r.drop_first(), CharClass::IdentTail);
        let name = r.take(n as int);
        if is_keyword(name) {
            None
        } else {
            Some((name, r.skip(n as int)))
        }
    } else {
        None
    }
}

/// The value of a string of decimal digits.
pub open spec fn digits_value(ds: Seq<char>) -> int
    decreases ds.len(),
{
    if ds.len() == 0 {
        0
    } else {
        digits_value(ds.drop_last()) * 10 + (ds.last() as u32 - 48)
    }
}

/// A run of digits whose value fits in an `i64`.
pub open spec fn int_spec(r: Seq<char>) -> Option<(STerm, Seq<char>)> {
    let n = run_len(r, CharClass::Digit);
    let v = digits_value(r.take(n as int));
    if n == 0 || v > i64::MAX {
        None
    } else {
        Some((STerm::Int(v as i64), r.skip(n as int)))
    }
}

pub open spec fn bool_spec(r: Seq<char>) -> Option<(STerm, Seq<char>)> {
    if r.len() >= 4 && r.take(4) == seq!['t', 'r', 'u', 'e'] {
        Some((STerm::Bool(true), r.skip(4)))
    } else if r.len() >= 5 && r.take(5) == seq!['f', 'a', 'l', 's', 'e'] {
        Some((STerm::Bool(false), r.skip(5)))
    } else {
        None
    }
}

/// The operators, tried in this order.
pub open spec fn op_spec(r: Seq<char>) -> Option<(PrimOp, Seq<char>)> {
    if r.len() >= 1 && r[0] == '+' {
        Some((PrimOp::Add, r.skip(1)))
    } else if r.len() >= 1 && r[0] == '-' {
        Some((PrimOp::Sub, r.skip(1)))
    } else if r.len() >= 1 && r[0] == '*' {
        Some((PrimOp::Mul, r.skip(1)))
    } else if r.len() >= 1 && r[0] == '/' {
        Some((PrimOp::Div, r.skip(1)))
    } else if r.len() >= 2 && r[0] == '=' && r[1] == '=' {
        Some((PrimOp::Eq, r.skip(2)))
    } else if r.len() >= 1 && r[0] == '<' {
        Some((PrimOp::Lt, r.skip(1)))
    } else if r.len() >= 1 && r[0] == '>' {
        Some((PrimOp::Gt, r.skip(1)))
    } else {
        None
    }
}

/// An expression at the start of `r`: a variable, an integer, a boolean, or a parenthesized
/// complex expression. Gives the term and what follows it.
pub open spec fn expr_spec(r: Seq<char>) -> Option<(STerm, Seq<char>)>
    decreases r.len(), 0nat,
{
    if let Some((name, rest)) = ident_spec(r) {
        Some((STerm::Var(name), rest))
    } else if let Some(res) = int_spec(r) {
        Some(res)
    } else if let Some(res) = bool_spec(r) {
        Some(res)
    } else {
        match ws_tag(r, seq!['(']) {
            None => None,
            Some(r1) => if r1.len() < r.len() {
                match complex_spec(r1) {
                    None => None,
                    Some((t, r2)) => match ws_tag(r2, seq![')']) {
                        None => None,
                        Some(r3) => Some((t, r3)),
                    },
                }
            } else {
                None
            },
        }
    }
}

/// The inside of a parenthesized expression: an abstraction, an application, a conditional or
/// a binary operation, tried in this order. The first form that parses is taken, with no
/// look-ahead past it: `(a + b)` is no application because `+` starts no expression, so it
/// falls through to the binary operation. A failed form is parsed again by the next one, so
/// the time taken grows with the nesting depth of parentheses.
pub open spec fn complex_spec(r: Seq<char>) -> Option<(STerm, Seq<char>)>
    decreases r.len(), 2nat,
{
    if let Some(t) = abs_part(r) {
        Some(t)
    } else if let Some(t) = app_part(r) {
        Some(t)
    } else if let Some(t) = if_part(r) {
        Some(t)
    } else {
        binop_part(r)
    }
}

/// `λ name . body`
pub open spec fn abs_part(r: Seq<char>) -> Option<(STerm, Seq<char>)>
    decreases r.len(), 1nat,
{
    match ws_tag(r, seq!['λ']) {
        None => None,
        Some(r1) => match ident_spec(r1) {
            None => None,
            Some((name, r2)) => match ws_tag(r2, seq!['.']) {
                None => None,
                Some(r3) => if r3.len() < r.len() {
                    match expr_spec(r3) {
                        None => None,
                        Some((body, r4)) => Some(
                            (STerm::Abs(name, Box::new(body)), skip_ws(r4)),
                        ),
                    }
                } else {
                    None
                },
            },
        },
    }
}

/// `left right`
pub open spec fn app_part(r: Seq<char>) -> Option<(STerm, Seq<char>)>
    decreases r.len(), 1nat,
{
    let r1 = skip_ws(r);
    if r1.len() <= r.len() {
        match expr_spec(r1) {
            None => None,
            Some((l, r2)) => {
                let r3 = skip_ws(r2);
                if r3.len() <= r.len() {
                    match expr_spec(r3) {
                        None => None,
                        Some((a, r4)) => Some(
                            (STerm::App(Box::new(l), Box::new(a)), skip_ws(r4)),
                        ),
                    }
                } else {
                    None
                }
            },
        }
    } else {
        None
    }
}

/// `if c then a else e`
pub open spec fn if_part(r: Seq<char>) -> Option<(STerm, Seq<char>)>
    decreases r.len(), 1nat,
{
    match ws_tag(r, seq!['i', 'f']) {
        None => None,
        Some(r1) => if r1.len() <= r.len() {
            match expr_spec(r1) {
                None => None,
                Some((c, r2)) => match ws_tag(r2, seq!['t', 'h', 'e', 'n']) {
                    None => None,
                    Some(r3) => if r3.len() <= r.len() {
                        match expr_spec(r3) {
                            None => None,
                            Some((a, r4)) => match ws_tag(r4, seq!['e', 'l', 's', 'e']) {
                                None => None,
                                Some(r5) => if r5.len() <= r.len() {
                                    match expr_spec(r5) {
                                        None => None,
                                        Some((e, r6)) => Some(
                                            (
                                                STerm::If(Box::new(c), Box::new(a), Box::new(e)),
                                                skip_ws(r6),
                                            ),
                                        ),
                                    }
                                } else {
                                    None
                                },
                            },
                        }
                    } else {
                        None
                    },
                },
            }
        } else {
            None
        },
    }
}

/// `left op right`
pub open spec fn binop_part(r: Seq<char>) -> Option<(STerm, Seq<char>)>
    decreases r.len(), 1nat,
{
    let r1 = skip_ws(r);
    if r1.len() <= r.len() {
        match expr_spec(r1) {
            None => None,
            Some((l, r2)) => match op_spec(skip_ws(r2)) {
                None => None,
                Some((op, r3)) => {
                    let r4 = skip_ws(r3);
                    if r4.len() <= r.len() {
                        match expr_spec(r4) {
                            None => None,
                            Some((a, r5)) => Some(
                                (STerm::PrimOp(op, Box::new(l), Box::new(a)), skip_ws(r5)),
                            ),
                        }
                    } else {
                        None
                    }
                },
            },
        }
    } else {
        None
    }
}

proof fn lemma_run_len(r: Seq<char>, class: CharClass, k: nat)
    requires
        k <= r.len(),
        forall|j: int| 0 <= j < k ==> in_class(#[trigger] r[j], class),
        k == r.len() || !in_class(r[k as int], class),
    ensures
        run_len(r, class) == k,
    decreases k,
{
    if k > 0 {
        assert forall|j: int| 0 <= j < k - 1 implies in_class(#[trigger] r.drop_first()[j], class) by {
            assert(r.drop_first()[j] == r[j + 1]);
        }
        lemma_run_len(r.drop_first(), class, (k - 1) as nat);
    }
}

fn char_in_class(c: char, class: &CharClass) -> (r: bool)
    ensures
        r == in_class(c, *class),
{
    match class {
        CharClass::Space => c == ' ' || c == '\t' || c == '\n' || c == '\r',
        CharClass::IdentTail => ('a' <= c && c <= 'z') || ('A' <= c && c <= 'Z') || ('0' <= c
            && c <= '9') || c == '_',
        CharClass::Digit => '0' <= c && c <= '9',
    }
}

/// The end of the run of characters in `class` that starts at `pos`.
fn run_end(chars: &Vec<char>, pos: usize, class: CharClass) -> (e: usize)
    requires
        pos <= chars@.len(),
    ensures
        pos <= e <= chars@.len(),
        e - pos == run_len(chars@.skip(pos as int), class),
        forall|j: int| pos <= j < e ==> in_class(#[trigger] chars@[j], class),
{
    let mut e = pos;
    while e < chars.len() && char_in_class(chars[e], &class)
        invariant
            pos <= e <= chars@.len(),
            forall|j: int| pos <= j < e ==> in_class(#[trigger] chars@[j], class),
        decreases chars@.len() - e,
    {
        e += 1;
    }
    proof {
        let r = chars@.skip(pos as int);
        assert forall|j: int| 0 <= j < e - pos implies in_class(#[trigger] r[j], class) by {
            assert(r[j] == chars@[pos + j]);
        }
        lemma_run_len(r, class, (e - pos) as nat);
    }
    e
}

/// The position after the whitespace that starts at `pos`.
fn skip_ws_at(chars: &Vec<char>, pos: usize) -> (e: usize)
    requires
        pos <= chars@.len(),
    ensures
        pos <= e <= chars@.len(),
        skip_ws(chars@.skip(pos as int)) == chars@.skip(e as int),
{
    let e = run_end(chars, pos, CharClass::Space);
    proof {
        assert(chars@.skip(pos as int).skip(e - pos) =~= chars@.skip(e as int));
    }
    e
}

/// Whether `tag` stands in `chars` at `pos`.
fn tag_at(chars: &Vec<char>, pos: usize, tag: &Vec<char>) -> (r: bool)
    requires
        pos <= chars@.len(),
    ensures
        r == (chars@.skip(pos as int).len() >= tag@.len() && chars@.skip(pos as int).take(
            tag@.len() as int,
        ) == tag@),
{
    if chars.len() - pos < tag.len() {
        return false;
    }
    let n = chars.len();
    let mut j: usize = 0;
    while j < tag.len()
        invariant
            n == chars@.len(),
            pos + tag@.len() <= n,
            j <= tag@.len(),
            forall|k: int| 0 <= k < j ==> chars@[pos + k] == tag@[k],
        decreases tag@.len() - j,
    {
        if chars[pos + j] != tag[j] {
            proof {
                assert(chars@.skip(pos as int).take(tag@.len() as int)[j as int] != tag@[j as int]);
            }
            return false;
        }
        j += 1;
    }
    proof {
        assert(chars@.skip(pos as int).take(tag@.len() as int) =~= tag@);
    }
    true
}

/// Skips whitespace, `tag` and whitespace from `pos`; the position after them.
fn ws_tag_at(chars: &Vec<char>, pos: usize, tag: &Vec<char>) -> (res: Option<usize>)
    requires
        pos <= chars@.len(),
    ensures
        match res {
            Some(e) => pos + tag@.len() <= e <= chars@.len() && ws_tag(
                chars@.skip(pos as int),
                tag@,
            ) == Some(chars@.skip(e as int)),
            None => ws_tag(chars@.skip(pos as int), tag@) is None,
        },
{
    let p1 = skip_ws_at(chars, pos);
    if !tag_at(chars, p1, tag) {
        return None;
    }
    let n = chars.len();
    assert(p1 + tag@.len() <= n);
    let p2 = p1 + tag.len();
    proof {
        assert(chars@.skip(p1 as int).skip(tag@.len() as int) =~= chars@.skip(p2 as int));
    }
    let e = skip_ws_at(chars, p2);
    Some(e)
}

/// The term and the position after it, seen as what is left of the input.
pub open spec fn located(s: Seq<char>, res: Option<(Term, usize)>) -> Option<(STerm, Seq<char>)> {
    match res {
        Some((t, e)) => Some((t@, s.skip(e as int))),
        None => None,
    }
}

pub open spec fn ends_within(res: Option<(Term, usize)>, pos: usize, len: nat) -> bool {
    match res {
        Some((_, e)) => pos <= e <= len,
        None => true,
    }
}

/// Whether `chars[start..end]` is a reserved word.
fn keyword_at(chars: &Vec<char>, start: usize, end: usize) -> (r: bool)
    requires
        start <= end <= chars@.len(),
    ensures
        r == is_keyword(chars@.subrange(start as int, end as int)),
{
    let words: Vec<Vec<char>> = vec![
        vec!['i', 'f'],
        vec!['t', 'h', 'e', 'n'],
        vec!['e', 'l', 's', 'e'],
        vec!['t', 'r', 'u', 'e'],
        vec!['f', 'a', 'l', 's', 'e'],
    ];
    let ghost name = chars@.subrange(start as int, end as int);
    proof {
        assert(words@[0]@ =~= seq!['i', 'f']);
        assert(words@[1]@ =~= seq!['t', 'h', 'e', 'n']);
        assert(words@[2]@ =~= seq!['e', 'l', 's', 'e']);
        assert(words@[3]@ =~= seq!['t', 'r', 'u', 'e']);
        assert(words@[4]@ =~= seq!['f', 'a', 'l', 's', 'e']);
    }
    let mut k: usize = 0;
    while k < words.len()
        invariant
            words@.len() == 5,
            words@[0]@ == seq!['i', 'f'],
            words@[1]@ == seq!['t', 'h', 'e', 'n'],
            words@[2]@ == seq!['e', 'l', 's', 'e'],
            words@[3]@ == seq!['t', 'r', 'u', 'e'],
            words@[4]@ == seq!['f', 'a', 'l', 's', 'e'],
            k <= 5,
            start <= end <= chars@.len(),
            name == chars@.subrange(start as int, end as int),
            forall|m: int| 0 <= m < k ==> name != #[trigger] words@[m]@,
        decreases 5 - k,
    {
        let w = &words[k];
        if w.len() == end - start && tag_at(chars, start, w) {
            proof {
                assert(chars@.skip(start as int).take(w@.len() as int) =~= name);
            }
            return true;
        }
        proof {
            if name == w@ {
                assert(chars@.skip(start as int).take(w@.len() as int) =~= name);
            }
        }
        k += 1;
    }
    false
}

/// An identifier at `pos`, and the position after it.
fn parse_identifier(input: &str, chars: &Vec<char>, pos: usize) -> (res: Option<(String, usize)>)
    requires
        chars@ == input@,
        pos <= chars@.len(),
    ensures
        match res {
            Some((name, e)) => pos < e <= chars@.len() && ident_spec(chars@.skip(pos as int))
                == Some((name@, chars@.skip(e as int))),
            None => ident_spec(chars@.skip(pos as int)) is None,
        },
{
    if pos >= chars.len() {
        return None;
    }
    let c = chars[pos];
    if !(('a' <= c && c <= 'z') || ('A' <= c && c <= 'Z')) {
        return None;
    }
    let e = run_end(chars, pos + 1, CharClass::IdentTail);
    let ghost r = chars@.skip(pos as int);
    proof {
        assert(r.drop_first() =~= chars@.skip(pos + 1));
        assert(r.take(e - pos) =~= chars@.subrange(pos as int, e as int));
        assert(r.skip(e - pos) =~= chars@.skip(e as int));
    }
    if keyword_at(chars, pos, e) {
        return None;
    }
    let name = String::from_str(input.substring_char(pos, e));
    Some((name, e))
}

proof fn lemma_digits_value_nonneg(ds: Seq<char>)
    requires
        forall|j: int| 0 <= j < ds.len() ==> is_digit(#[trigger] ds[j]),
    ensures
        digits_value(ds) >= 0,
    decreases ds.len(),
{
    if ds.len() > 0 {
        lemma_digits_value_nonneg(ds.drop_last());
        assert(is_digit(ds[ds.len() - 1]));
    }
}

proof fn lemma_digits_value_prefix(ds: Seq<char>, k: nat)
    requires
        k <= ds.len(),
        forall|j: int| 0 <= j < ds.len() ==> is_digit(#[trigger] ds[j]),
    ensures
        digits_value(ds.take(k as int)) <= digits_value(ds),
    decreases ds.len(),
{
    if k < ds.len() {
        lemma_digits_value_prefix(ds.drop_last(), k);
        assert(ds.drop_last().take(k as int) =~= ds.take(k as int));
        lemma_digits_value_nonneg(ds.drop_last());
        assert(is_digit(ds[ds.len() - 1]));
    } else {
        assert(ds.take(k as int) =~= ds);
    }
}

/// An integer literal at `pos`, and the position after it.
fn parse_int(chars: &Vec<char>, pos: usize) -> (res: Option<(Term, usize)>)
    requires
        pos <= chars@.len(),
    ensures
        located(chars@, res) == int_spec(chars@.skip(pos as int)),
        ends_within(res, pos, chars@.len()),
{
    let e = run_end(chars, pos, CharClass::Digit);
    let ghost r = chars@.skip(pos as int);
    let ghost ds = chars@.subrange(pos as int, e as int);
    proof {
        assert(r.take(e - pos) =~= ds);
        assert(r.skip(e - pos) =~= chars@.skip(e as int));
        assert forall|j: int| 0 <= j < ds.len() implies is_digit(#[trigger] ds[j]) by {
            assert(ds[j] == chars@[pos + j]);
            assert(in_class(chars@[pos + j], CharClass::Digit));
        }
    }
    if e == pos {
        return None;
    }
    let mut acc: i64 = 0;
    let mut j: usize = pos;
    while j < e
        invariant
            pos <= j <= e <= chars@.len(),
            ds == chars@.subrange(pos as int, e as int),
            forall|k: int| 0 <= k < ds.len() ==> is_digit(#[trigger] ds[k]),
            acc == digits_value(chars@.subrange(pos as int, j as int)),
            acc >= 0,
            digits_value(ds) == digits_value(chars@.skip(pos as int).take(e - pos)),
            e - pos == run_len(chars@.skip(pos as int), CharClass::Digit),
        decreases e - j,
    {
        let ghost before = chars@.subrange(pos as int, j as int);
        let ghost after = chars@.subrange(pos as int, j + 1);
        proof {
            assert(after.drop_last() =~= before);
            assert(ds[j - pos] == chars@[j as int]);
            assert(ds.take(j + 1 - pos) =~= after);
            lemma_digits_value_prefix(ds, (j + 1 - pos) as nat);
        }
        let d = (chars[j] as u32 - 48) as i64;
        proof {
            assert(is_digit(ds[j - pos]));
            assert(after.last() == chars@[j as int]);
            assert(digits_value(after) == acc * 10 + d);
            assert(d >= 0);
        }
        match acc.checked_mul(10) {
            None => {
                return None;
            },
            Some(m) => match m.checked_add(d) {
                None => {
                    return None;
                },
                Some(v) => {
                    acc = v;
                },
            },
        }
        j += 1;
    }
    Some((Term::Int(acc), e))
}

/// A boolean literal at `pos`, and the position after it.
fn parse_bool(chars: &Vec<char>, pos: usize) -> (res: Option<(Term, usize)>)
    requires
        pos <= chars@.len(),
    ensures
        located(chars@, res) == bool_spec(chars@.skip(pos as int)),
        ends_within(res, pos, chars@.len()),
{
    let t = vec!['t', 'r', 'u', 'e'];
    let f = vec!['f', 'a', 'l', 's', 'e'];
    proof {
        assert(t@ =~= seq!['t', 'r', 'u', 'e']);
        assert(f@ =~= seq!['f', 'a', 'l', 's', 'e']);
    }
    let n = chars.len();
    if tag_at(chars, pos, &t) {
        assert(pos + 4 <= n);
        proof {
            assert(chars@.skip(pos as int).skip(4) =~= chars@.skip(pos + 4));
        }
        Some((Term::Bool(true), pos + 4))
    } else if tag_at(chars, pos, &f) {
        assert(pos + 5 <= n);
        proof {
            assert(chars@.skip(pos as int).skip(5) =~= chars@.skip(pos + 5));
        }
        Some((Term::Bool(false), pos + 5))
    } else {
        None
    }
}

/// An operator at `pos`, and the position after it.
fn parse_prim_op(chars: &Vec<char>, pos: usize) -> (res: Option<(PrimOp, usize)>)
    requires
        pos <= chars@.len(),
    ensures
        match res {
            Some((op, e)) => pos < e <= chars@.len() && op_spec(chars@.skip(pos as int)) == Some(
                (op, chars@.skip(e as int)),
            ),
            None => op_spec(chars@.skip(pos as int)) is None,
        },
{
    let n = chars.len();
    if pos >= n {
        return None;
    }
    let ghost r = chars@.skip(pos as int);
    proof {
        assert(r[0] == chars@[pos as int]);
        assert(r.skip(1) =~= chars@.skip(pos + 1));
    }
    let c = chars[pos];
    if c == '+' {
        Some((PrimOp::Add, pos + 1))
    } else if c == '-' {
        Some((PrimOp::Sub, pos + 1))
    } else if c == '*' {
        Some((PrimOp::Mul, pos + 1))
    } else if c == '/' {
        Some((PrimOp::Div, pos + 1))
    } else if c == '=' && pos + 1 < n && chars[pos + 1] == '=' {
        proof {
            assert(r[1] == chars@[pos + 1]);
            assert(r.skip(2) =~= chars@.skip(pos + 2));
        }
        Some((PrimOp::Eq, pos + 2))
    } else if c == '<' {
        proof {
            if r.len() >= 2 {
                assert(r[1] == chars@[pos + 1]);
            }
        }
        Some((PrimOp::Lt, pos + 1))
    } else if c == '>' {
        proof {
            if r.len() >= 2 {
                assert(r[1] == chars@[pos + 1]);
            }
        }
        Some((PrimOp::Gt, pos + 1))
    } else {
        proof {
            if r.len() >= 2 {
                assert(r[1] == chars@[pos + 1]);
            }
        }
        None
    }
}

/// A variable at `pos`, and the position after it.
fn parse_var(input: &str, chars: &Vec<char>, pos: usize) -> (res: Option<(Term, usize)>)
    requires
        chars@ == input@,
        pos <= chars@.len(),
    ensures
        match res {
            Some((t, e)) => pos < e <= chars@.len() && ident_spec(chars@.skip(pos as int)) == Some(
                (t@->Var_0, chars@.skip(e as int)),
            ) && t@ is Var,
            None => ident_spec(chars@.skip(pos as int)) is None,
        },
{
    match parse_identifier(input, chars, pos) {
        Some((name, e)) => Some((Term::Var(name), e)),
        None => None,
    }
}

/// An expression at `pos`, and the position after it.
fn parse_expression_at(input: &str, chars: &Vec<char>, pos: usize) -> (res: Option<(Term, usize)>)
    requires
        chars@ == input@,
        pos <= chars@.len(),
    ensures
        located(chars@, res) == expr_spec(chars@.skip(pos as int)),
        ends_within(res, pos, chars@.len()),
    decreases chars@.len() - pos, 0nat,
{
    if let Some(res) = parse_var(input, chars, pos) {
        return Some(res);
    }
    if let Some(res) = parse_int(chars, pos) {
        return Some(res);
    }
    if let Some(res) = parse_bool(chars, pos) {
        return Some(res);
    }
    let open = vec!['('];
    let close = vec![')'];
    proof {
        assert(open@ =~= seq!['(']);
        assert(close@ =~= seq![')']);
    }
    match ws_tag_at(chars, pos, &open) {
        None => None,
        Some(p1) => match parse_complex_expression(input, chars, p1) {
            None => None,
            Some((t, p2)) => match ws_tag_at(chars, p2, &close) {
                None => None,
                Some(p3) => Some((t, p3)),
            },
        },
    }
}

/// The inside of a parenthesized expression at `pos`, and the position after it.
fn parse_complex_expression(input: &str, chars: &Vec<char>, pos: usize) -> (res: Option<(Term, usize)>)
    requires
        chars@ == input@,
        pos <= chars@.len(),
    ensures
        located(chars@, res) == complex_spec(chars@.skip(pos as int)),
        ends_within(res, pos, chars@.len()),
    decreases chars@.len() - pos, 2nat,
{
    if let Some(res) = parse_abs(input, chars, pos) {
        return Some(res);
    }
    if let Some(res) = parse_app(input, chars, pos) {
        return Some(res);
    }
    if let Some(res) = parse_if_then_else(input, chars, pos) {
        return Some(res);
    }
    parse_binary_op(input, chars, pos)
}

fn parse_abs(input: &str, chars: &Vec<char>, pos: usize) -> (res: Option<(Term, usize)>)
    requires
        chars@ == input@,
        pos <= chars@.len(),
    ensures
        located(chars@, res) == abs_part(chars@.skip(pos as int)),
        ends_within(res, pos, chars@.len()),
    decreases chars@.len() - pos, 1nat,
{
    let lambda = vec!['λ'];
    let dot = vec!['.'];
    proof {
        assert(lambda@ =~= seq!['λ']);
        assert(dot@ =~= seq!['.']);
    }
    let p1 = match ws_tag_at(chars, pos, &lambda) {
        None => return None,
        Some(p1) => p1,
    };
    let (name, p2) = match parse_identifier(input, chars, p1) {
        None => return None,
        Some(x) => x,
    };
    let p3 = match ws_tag_at(chars, p2, &dot) {
        None => return None,
        Some(p3) => p3,
    };
    let (body, p4) = match parse_expression_at(input, chars, p3) {
        None => return None,
        Some(x) => x,
    };
    let p5 = skip_ws_at(chars, p4);
    Some((Term::Abs(name, Box::new(body)), p5))
}

fn parse_app(input: &str, chars: &Vec<char>, pos: usize) -> (res: Option<(Term, usize)>)
    requires
        chars@ == input@,
        pos <= chars@.len(),
    ensures
        located(chars@, res) == app_part(chars@.skip(pos as int)),
        ends_within(res, pos, chars@.len()),
    decreases chars@.len() - pos, 1nat,
{
    let p1 = skip_ws_at(chars, pos);
    let (l, p2) = match parse_expression_at(input, chars, p1) {
        None => return None,
        Some(x) => x,
    };
    let p3 = skip_ws_at(chars, p2);
    let (a, p4) = match parse_expression_at(input, chars, p3) {
        None => return None,
        Some(x) => x,
    };
    let p5 = skip_ws_at(chars, p4);
    Some((Term::App(Box::new(l), Box::new(a)), p5))
}

fn parse_if_then_else(input: &str, chars: &Vec<char>, pos: usize) -> (res: Option<(Term, usize)>)
    requires
        chars@ == input@,
        pos <= chars@.len(),
    ensures
        located(chars@, res) == if_part(chars@.skip(pos as int)),
        ends_within(res, pos, chars@.len()),
    decreases chars@.len() - pos, 1nat,
{
    let kw_if = vec!['i', 'f'];
    let kw_then = vec!['t', 'h', 'e', 'n'];
    let kw_else = vec!['e', 'l', 's', 'e'];
    proof {
        assert(kw_if@ =~= seq!['i', 'f']);
        assert(kw_then@ =~= seq!['t', 'h', 'e', 'n']);
        assert(kw_else@ =~= seq!['e', 'l', 's', 'e']);
    }
    let p1 = match ws_tag_at(chars, pos, &kw_if) {
        None => return None,
        Some(p) => p,
    };
    let (c, p2) = match parse_expression_at(input, chars, p1) {
        None => return None,
        Some(x) => x,
    };
    let p3 = match ws_tag_at(chars, p2, &kw_then) {
        None => return None,
        Some(p) => p,
    };
    let (a, p4) = match parse_expression_at(input, chars, p3) {
        None => return None,
        Some(x) => x,
    };
    let p5 = match ws_tag_at(chars, p4, &kw_else) {
        None => return None,
        Some(p) => p,
    };
    let (e, p6) = match parse_expression_at(input, chars, p5) {
        None => return None,
        Some(x) => x,
    };
    let p7 = skip_ws_at(chars, p6);
    Some((Term::If(Box::new(c), Box::new(a), Box::new(e)), p7))
}

fn parse_binary_op(input: &str, chars: &Vec<char>, pos: usize) -> (res: Option<(Term, usize)>)
    requires
        chars@ == input@,
        pos <= chars@.len(),
    ensures
        located(chars@, res) == binop_part(chars@.skip(pos as int)),
        ends_within(res, pos, chars@.len()),
    decreases chars@.len() - pos, 1nat,
{
    let p1 = skip_ws_at(chars, pos);
    let (l, p2) = match parse_expression_at(input, chars, p1) {
        None => return None,
        Some(x) => x,
    };
    let p3 = skip_ws_at(chars, p2);
    let (op, p4) = match parse_prim_op(chars, p3) {
        None => return None,
        Some(x) => x,
    };
    let p5 = skip_ws_at(chars, p4);
    let (a, p6) = match parse_expression_at(input, chars, p5) {
        None => return None,
        Some(x) => x,
    };
    let p7 = skip_ws_at(chars, p6);
    Some((Term::PrimOp(op, Box::new(l), Box::new(a)), p7))
}

/// Why parsing failed.
#[derive(Debug, Clone, Copy, PartialEq, Eq, Structural)]
pub enum ParseError {
    /// The text does not follow the grammar.
    Syntax,
    /// A full program was read, but text follows it.
    TrailingInput,
    /// The program binds no name `main`.
    MissingMain,
}

/// A program: its top-level bindings and the term bound to `main`.
pub struct Program {
    pub env: Env,
    pub main: Term,
}

/// One binding `name = expr;`.
pub open spec fn binding_spec(r: Seq<char>) -> Option<((Seq<char>, STerm), Seq<char>)> {
    match ident_spec(skip_ws(r)) {
        None => None,
        Some((name, r1)) => match ws_tag(r1, seq!['=']) {
            None => None,
            Some(r2) => match expr_spec(r2) {
                None => None,
                Some((t, r3)) => match ws_tag(r3, seq![';']) {
                    None => None,
                    Some(r4) => Some(((name, t), r4)),
                },
            },
        },
    }
}

/// As many bindings as can be read from the start of `r`, and what follows them.
pub open spec fn bindings_spec(r: Seq<char>) -> (Seq<(Seq<char>, STerm)>, Seq<char>)
    decreases r.len(),
{
    match binding_spec(r) {
        None => (Seq::empty(), r),
        Some((b, r1)) => if r1.len() < r.len() {
            let (bs, r2) = bindings_spec(r1);
            (seq![b] + bs, r2)
        } else {
            (seq![b], r1)
        },
    }
}

/// One or more bindings.
pub open spec fn program_spec(r: Seq<char>) -> Option<(Seq<(Seq<char>, STerm)>, Seq<char>)> {
    let (bs, rest) = bindings_spec(r);
    if bs.len() == 0 {
        None
    } else {
        Some((bs, rest))
    }
}

/// The map of a list of bindings: a later binding of a name replaces an earlier one.
pub open spec fn binding_list_map(bs: Seq<(Seq<char>, STerm)>) -> Map<Seq<char>, STerm>
    decreases bs.len(),
{
    if bs.len() == 0 {
        Map::empty()
    } else {
        binding_list_map(bs.drop_last()).insert(bs.last().0, bs.last().1)
    }
}

pub open spec fn main_name() -> Seq<char> {
    seq!['m', 'a', 'i', 'n']
}

/// A whole program text: its bindings as a map, and the term bound to `main`.
pub open spec fn main_program_spec(s: Seq<char>) -> Result<
    (Map<Seq<char>, STerm>, STerm),
    ParseError,
> {
    match program_spec(s) {
        None => Err(ParseError::Syntax),
        Some((bs, rest)) => if rest.len() != 0 {
            Err(ParseError::TrailingInput)
        } else {
            let m = binding_list_map(bs);
            if m.contains_key(main_name()) {
                Ok((m, m[main_name()]))
            } else {
                Err(ParseError::MissingMain)
            }
        },
    }
}

pub open spec fn bindings_view(v: Seq<(String, Term)>) -> Seq<(Seq<char>, STerm)> {
    v.map_values(|b: (String, Term)| (b.0@, b.1@))
}

pub open spec fn program_outcome(r: Result<Program, ParseError>) -> Result<
    (Map<Seq<char>, STerm>, STerm),
    ParseError,
> {
    match r {
        Ok(p) => Ok((p.env@, p.main@)),
        Err(e) => Err(e),
    }
}

/// The characters of `input`.
fn chars_of(input: &str) -> (v: Vec<char>)
    ensures
        v@ == input@,
{
    let n = input.unicode_len();
    let mut v: Vec<char> = Vec::new();
    let mut j: usize = 0;
    while j < n
        invariant
            n == input@.len(),
            j <= n,
            v@ == input@.take(j as int),
        decreases n - j,
    {
        v.push(input.get_char(j));
        proof {
            assert(v@ =~= input@.take(j + 1));
        }
        j += 1;
    }
    proof {
        assert(input@.take(n as int) =~= input@);
    }
    v
}

fn binding_at(input: &str, chars: &Vec<char>, pos: usize) -> (res: Option<(String, Term, usize)>)
    requires
        chars@ == input@,
        pos <= chars@.len(),
    ensures
        match res {
            Some((name, t, e)) => pos < e <= chars@.len() && binding_spec(chars@.skip(pos as int))
                == Some(((name@, t@), chars@.skip(e as int))),
            None => binding_spec(chars@.skip(pos as int)) is None,
        },
{
    let equals = vec!['='];
    let semi = vec![';'];
    proof {
        assert(equals@ =~= seq!['=']);
        assert(semi@ =~= seq![';']);
    }
    let p0 = skip_ws_at(chars, pos);
    let (name, p1) = match parse_identifier(input, chars, p0) {
        None => return None,
        Some(x) => x,
    };
    let p2 = match ws_tag_at(chars, p1, &equals) {
        None => return None,
        Some(p) => p,
    };
    let (t, p3) = match parse_expression_at(input, chars, p2) {
        None => return None,
        Some(x) => x,
    };
    let p4 = match ws_tag_at(chars, p3, &semi) {
        None => return None,
        Some(p) => p,
    };
    Some((name, t, p4))
}

/// Parses an expression at the start of `input`; gives what is left of `input` and the term.
pub fn parse_expression(input: &str) -> (r: Result<(&str, Term), ParseError>)
    ensures
        match r {
            Ok((rest, t)) => expr_spec(input@) == Some((t@, rest@)),
            Err(e) => e == ParseError::Syntax && expr_spec(input@) is None,
        },
{
    let chars = chars_of(input);
    proof {
        assert(chars@.skip(0) =~= chars@);
    }
    match parse_expression_at(input, &chars, 0) {
        None => Err(ParseError::Syntax),
        Some((t, e)) => {
            let rest = input.substring_char(e, chars.len());
            Ok((rest, t))
        },
    }
}

/// Parses one or more bindings `name = expr;` at the start of `input`; gives what is left of
/// `input` and the bindings in the order of the text.
pub fn parse_program(input: &str) -> (r: Result<(&str, Vec<(String, Term)>), ParseError>)
    ensures
        match r {
            Ok((rest, bs)) => program_spec(input@) == Some((bindings_view(bs@), rest@)),
            Err(e) => e == ParseError::Syntax && program_spec(input@) is None,
        },
{
    let chars = chars_of(input);
    let ghost whole = chars@;
    proof {
        assert(chars@.skip(0) =~= chars@);
    }
    let mut items: Vec<(String, Term)> = Vec::new();
    let mut pos: usize = 0;
    loop
        invariant
            chars@ == input@,
            whole == chars@,
            pos <= chars@.len(),
            bindings_spec(whole) == (
                bindings_view(items@) + bindings_spec(chars@.skip(pos as int)).0,
                bindings_spec(chars@.skip(pos as int)).1,
            ),
        ensures
            chars@ == input@,
            whole == chars@,
            pos <= chars@.len(),
            bindings_spec(whole) == (
                bindings_view(items@) + bindings_spec(chars@.skip(pos as int)).0,
                bindings_spec(chars@.skip(pos as int)).1,
            ),
            binding_spec(chars@.skip(pos as int)) is None,
        decreases chars@.len() - pos,
    {
        match binding_at(input, &chars, pos) {
            None => {
                break ;
            },
            Some((name, t, e)) => {
                let ghost before = items@;
                let ghost b = (name@, t@);
                items.push((name, t));
                proof {
                    assert(bindings_view(items@) =~= bindings_view(before).push(b));
                    let tail = bindings_spec(chars@.skip(e as int));
                    assert(bindings_spec(chars@.skip(pos as int)).0 =~= seq![b] + tail.0);
                    assert(bindings_view(items@) + tail.0 =~= bindings_view(before) + (seq![b]
                        + tail.0));
                }
                pos = e;
            },
        }
    }
    proof {
        assert(bindings_view(items@) + Seq::empty() =~= bindings_view(items@));
        assert(bindings_spec(whole).0 == bindings_view(items@));
    }
    if items.len() == 0 {
        return Err(ParseError::Syntax);
    }
    let rest = input.substring_char(pos, chars.len());
    proof {
        assert(rest@ =~= chars@.skip(pos as int));
    }
    Ok((rest, items))
}

/// Parses a whole program and picks out its `main` binding.
pub fn parse_main_program(input: &str) -> (r: Result<Program, ParseError>)
    ensures
        program_outcome(r) == main_program_spec(input@),
{
    let (rest, prog) = match parse_program(input) {
        Err(e) => return Err(e),
        Ok(x) => x,
    };
    if rest.unicode_len() != 0 {
        return Err(ParseError::TrailingInput);
    }
    let mut env = Env::new();
    let mut j: usize = 0;
    while j < prog.len()
        invariant
            j <= prog@.len(),
            env@ == binding_list_map(bindings_view(prog@).take(j as int)),
        decreases prog@.len() - j,
    {
        let name = prog[j].0.clone();
        let t = crate::term::copy_term(&prog[j].1);
        env.insert(name, t);
        proof {
            assert(bindings_view(prog@).take(j + 1).drop_last() =~= bindings_view(prog@).take(
                j as int,
            ));
        }
        j += 1;
    }
    proof {
        assert(bindings_view(prog@).take(j as int) =~= bindings_view(prog@));
    }
    let key = String::from_str("main");
    proof {
        reveal_strlit("main");
        assert(key@ =~= main_name());
    }
    match env.get(&key) {
        None => Err(ParseError::MissingMain),
        Some(main) => Ok(Program { env, main }),
    }
}

} // verus!
