//! A light reader of STEP physical files (ISO 10303-21) for importing IFC
//! geometry: it gathers the statements of a file, one per entity instance,
//! and picks the instance references out of their arguments.
use crate::text::{all_digits, capped, chars_of, digits_value, digits_value_capped, is_digit, string_from_chars};
use vstd::prelude::*;

verus! {

/// Is `c` white space in the sense of Unicode's `White_Space` property,
/// which is what `char::is_whitespace` tests?
pub open spec fn is_white_space(c: char) -> bool {
    ||| '\u{9}' <= c <= '\u{d}'
    ||| c == ' '
    ||| c == '\u{85}'
    ||| c == '\u{a0}'
    ||| c == '\u{1680}'
    ||| '\u{2000}' <= c <= '\u{200a}'
    ||| c == '\u{2028}'
    ||| c == '\u{2029}'
    ||| c == '\u{202f}'
    ||| c == '\u{205f}'
    ||| c == '\u{3000}'
}

/// `s` without its trailing white space.
pub open spec fn trim_end(s: Seq<char>) -> Seq<char>
    decreases s.len(),
{
    if s.len() > 0 && is_white_space(s.last()) {
        trim_end(s.drop_last())
    } else {
        s
    }
}

/// `s` without its leading white space.
pub open spec fn trim_start(s: Seq<char>) -> Seq<char>
    decreases s.len(),
{
    if s.len() > 0 && is_white_space(s[0]) {
        trim_start(s.drop_first())
    } else {
        s
    }
}

/// `s` without white space at either end.
pub open spec fn trim(s: Seq<char>) -> Seq<char> {
    trim_start(trim_end(s))
}

fn is_ws(c: char) -> (r: bool)
    ensures
        r == is_white_space(c),
{
    ('\u{9}' <= c && c <= '\u{d}') || c == ' ' || c == '\u{85}' || c == '\u{a0}' || c == '\u{1680}' || ('\u{2000}'
        <= c && c <= '\u{200a}') || c == '\u{2028}' || c == '\u{2029}' || c == '\u{202f}' || c == '\u{205f}' || c
        == '\u{3000}'
}

/// The end of `s[a..b]` once its trailing white space is dropped.
fn trim_end_at(s: &Vec<char>, a: usize, b: usize) -> (e: usize)
    requires
        a <= b <= s@.len(),
    ensures
        a <= e <= b,
        s@.subrange(a as int, e as int) == trim_end(s@.subrange(a as int, b as int)),
{
    let mut e = b;
    while e > a && is_ws(s[e - 1])
        invariant
            a <= e <= b <= s@.len(),
            trim_end(s@.subrange(a as int, b as int)) == trim_end(s@.subrange(a as int, e as int)),
        decreases e - a,
    {
        assert(s@.subrange(a as int, e as int).drop_last() =~= s@.subrange(a as int, e - 1));
        e = e - 1;
    }
    e
}

/// The bounds of `s[a..b]` once white space is dropped at both ends.
fn trim_at(s: &Vec<char>, a: usize, b: usize) -> (r: (usize, usize))
    requires
        a <= b <= s@.len(),
    ensures
        a <= r.0 <= r.1 <= b,
        s@.subrange(r.0 as int, r.1 as int) == trim(s@.subrange(a as int, b as int)),
{
    let e = trim_end_at(s, a, b);
    let mut st = a;
    while st < e && is_ws(s[st])
        invariant
            a <= st <= e <= b <= s@.len(),
            trim_start(s@.subrange(a as int, e as int)) == trim_start(s@.subrange(st as int, e as int)),
        decreases e - st,
    {
        assert(s@.subrange(st as int, e as int).drop_first() =~= s@.subrange(st + 1, e as int));
        st = st + 1;
    }
    (st, e)
}

/// Does a `//` comment start at index `i` of `l`?
pub open spec fn comment_at(l: Seq<char>, i: int) -> bool {
    0 <= i && i + 1 < l.len() && l[i] == '/' && l[i + 1] == '/'
}

/// Is `i` where the first `//` of `l` starts?
pub open spec fn is_first_comment(l: Seq<char>, i: int) -> bool {
    comment_at(l, i) && forall|j: int| 0 <= j < i ==> !comment_at(l, j)
}

/// Where the first `//` of `l` starts, or the length of `l` when it has none.
pub open spec fn first_comment(l: Seq<char>) -> int {
    if exists|i: int| is_first_comment(l, i) {
        choose|i: int| is_first_comment(l, i)
    } else {
        l.len() as int
    }
}

proof fn lemma_first_comment(l: Seq<char>, i: int)
    requires
        is_first_comment(l, i),
    ensures
        first_comment(l) == i,
{
    let k = choose|k: int| is_first_comment(l, k);
    if k < i {
        assert(!comment_at(l, k));
    } else if k > i {
        assert(!comment_at(l, i));
    }
}

/// What a line adds to the statement being gathered: nothing when, trimmed,
/// it is empty or a comment; else the trimmed line, cut before a `//` comment
/// (and trimmed again) when it holds one.
pub open spec fn line_piece(line: Seq<char>) -> Option<Seq<char>> {
    let l = trim(line);
    if l.len() == 0 || comment_at(l, 0) {
        None
    } else if first_comment(l) < l.len() {
        Some(trim_end(l.take(first_comment(l))))
    } else {
        Some(l)
    }
}

/// The statements found so far and the statement being gathered, after one
/// more line: a piece that closes the statement with `;` completes it, and
/// the statement is kept when it is an entity statement `#id = KIND(args);`
/// (see `lite_statement_parts`); otherwise a space follows the piece.
pub open spec fn scan_step(st: (Seq<Seq<char>>, Seq<char>), line: Seq<char>) -> (Seq<Seq<char>>, Seq<char>) {
    match line_piece(line) {
        None => st,
        Some(p) => {
            let cur = st.1 + p;
            if cur.len() > 0 && cur.last() == ';' {
                (
                    if lite_statement_parts(cur) is Some {
                        st.0.push(cur)
                    } else {
                        st.0
                    },
                    Seq::<char>::empty(),
                )
            } else {
                (st.0, cur.push(' '))
            }
        },
    }
}

/// The state after reading the lines in order.
pub open spec fn scan_lines(lines: Seq<Seq<char>>) -> (Seq<Seq<char>>, Seq<char>)
    decreases lines.len(),
{
    if lines.len() == 0 {
        (Seq::<Seq<char>>::empty(), Seq::<char>::empty())
    } else {
        scan_step(scan_lines(lines.drop_last()), lines.last())
    }
}

/// The pieces of `t` between line feeds (a text without a line feed is one
/// piece).
pub open spec fn split_lines(t: Seq<char>) -> Seq<Seq<char>>
    decreases t.len(),
{
    if t.len() == 0 {
        seq![Seq::<char>::empty()]
    } else {
        let s = split_lines(t.drop_last());
        if t.last() == '\n' {
            s.push(Seq::<char>::empty())
        } else {
            s.update(s.len() - 1, s.last().push(t.last()))
        }
    }
}

/// The complete entity statements of a STEP text (`#id = KIND(args);`), in
/// order; other statements, such as `DATA;` or `ENDSEC;`, are left out. A
/// statement may run over several lines, which are joined with a space;
/// blank lines and `//` comments are left out; an unfinished last statement
/// is dropped.
pub open spec fn p21_statements(t: Seq<char>) -> Seq<Seq<char>> {
    scan_lines(split_lines(t)).0
}

/// Adds to `cur` the piece of the line `s[a..b]`, if any, and completes the
/// statement when it ends with `;`.
#[verifier::spinoff_prover]
#[verifier::rlimit(40)]
fn scan_line(s: &Vec<char>, a: usize, b: usize, out: &mut Vec<String>, cur: &mut Vec<char>)
    requires
        a <= b <= s@.len(),
    ensures
        (final(out)@.map_values(|x: String| x@), final(cur)@) == scan_step(
            (old(out)@.map_values(|x: String| x@), old(cur)@),
            s@.subrange(a as int, b as int),
        ),
{
    let ghost line = s@.subrange(a as int, b as int);
    let (x, y) = trim_at(s, a, b);
    let ghost l = s@.subrange(x as int, y as int);
    if y == x {
        assert(l.len() == 0);
        return ;
    }
    if y - x >= 2 && s[x] == '/' && s[x + 1] == '/' {
        assert(comment_at(l, 0));
        return ;
    }
    // first `//` within the trimmed line
    let mut i = x;
    while i + 1 < y && !(s[i] == '/' && s[i + 1] == '/')
        invariant
            x <= i,
            i < y,
            y <= s@.len(),
            l == s@.subrange(x as int, y as int),
            forall|j: int| 0 <= j < i - x ==> !comment_at(l, j),
        decreases y - i,
    {
        i = i + 1;
    }
    let found = i + 1 < y;
    let ghost old_cur = cur@;
    let mut end = y;
    if found {
        assert(comment_at(l, i - x));
        proof {
            lemma_first_comment(l, i - x);
        }
        end = trim_end_at(s, x, i);
        assert(l.take(i - x) =~= s@.subrange(x as int, i as int));
    } else {
        assert forall|j: int| 0 <= j < l.len() implies !comment_at(l, j) by {
            if j >= i - x {
                assert(j + 1 >= l.len());
            }
        }
        assert(!exists|k: int| is_first_comment(l, k));
    }
    let mut k = x;
    while k < end
        invariant
            x <= k <= end <= y <= s@.len(),
            cur@ == old_cur + s@.subrange(x as int, k as int),
        decreases end - k,
    {
        cur.push(s[k]);
        k = k + 1;
        assert(cur@ =~= old_cur + s@.subrange(x as int, k as int));
    }
    assert(line_piece(line) == Some(s@.subrange(x as int, end as int)));
    if cur.len() > 0 && cur[cur.len() - 1] == ';' {
        let done = string_from_chars(cur);
        if parse_statement_lite(done.as_str()).is_some() {
            let ghost before = out@;
            out.push(done);
            assert(out@.map_values(|v: String| v@) =~= before.map_values(|v: String| v@).push(done@));
        }
        *cur = Vec::new();
    } else {
        cur.push(' ');
    }
}

/// The statements of a STEP text (see `p21_statements`).
pub fn read_p21_entities(text: &str) -> (r: Vec<String>)
    ensures
        r@.map_values(|x: String| x@) == p21_statements(text@),
{
    let cs = chars_of(text);
    let mut out: Vec<String> = Vec::new();
    let mut cur: Vec<char> = Vec::new();
    let mut ss: usize = 0;
    let mut i: usize = 0;
    while i < cs.len()
        invariant
            ss <= i <= cs@.len(),
            cs@ == text@,
            split_lines(cs@.take(i as int)).len() >= 1,
            (out@.map_values(|x: String| x@), cur@) == scan_lines(split_lines(cs@.take(i as int)).drop_last()),
            split_lines(cs@.take(i as int)).last() == cs@.subrange(ss as int, i as int),
        decreases cs@.len() - i,
    {
        let ghost pre = split_lines(cs@.take(i as int));
        assert(cs@.take(i + 1).drop_last() =~= cs@.take(i as int));
        if cs[i] == '\n' {
            scan_line(&cs, ss, i, &mut out, &mut cur);
            proof {
                let nxt = split_lines(cs@.take(i + 1));
                assert(nxt == pre.push(Seq::<char>::empty()));
                assert(nxt.drop_last() =~= pre);
                assert(pre.drop_last() =~= pre.drop_last());
                assert(scan_lines(pre) == scan_step(scan_lines(pre.drop_last()), pre.last()));
            }
            ss = i + 1;
            i = i + 1;
            assert(cs@.subrange(ss as int, i as int) =~= Seq::<char>::empty());
        } else {
            proof {
                let nxt = split_lines(cs@.take(i + 1));
                assert(nxt == pre.update(pre.len() - 1, pre.last().push(cs@[i as int])));
                assert(nxt.drop_last() =~= pre.drop_last());
                assert(nxt.last() =~= cs@.subrange(ss as int, i + 1));
            }
            i = i + 1;
        }
    }
    scan_line(&cs, ss, i, &mut out, &mut cur);
    proof {
        let all = split_lines(cs@.take(i as int));
        assert(cs@.take(i as int) =~= text@);
        assert(scan_lines(all) == scan_step(scan_lines(all.drop_last()), all.last()));
    }
    out
}

/// An instance name `#n` of a STEP file.
#[derive(Clone, Copy, Debug, PartialEq, Eq, Structural)]
pub struct Idx(pub u32);

/// Number of ASCII digits at the start of `s`.
pub open spec fn digit_run(s: Seq<char>) -> nat
    decreases s.len(),
{
    if s.len() > 0 && is_digit(s[0]) {
        1 + digit_run(s.drop_first())
    } else {
        0
    }
}

pub proof fn lemma_digit_run_bound(s: Seq<char>)
    ensures
        digit_run(s) <= s.len(),
    decreases s.len(),
{
    if s.len() > 0 {
        lemma_digit_run_bound(s.drop_first());
    }
}

/// Does an instance reference `#` followed by digits start `s`?
pub open spec fn starts_ref(s: Seq<char>) -> bool {
    s.len() > 0 && s[0] == '#' && digit_run(s.drop_first()) > 0
}

/// The number written by the digits of the reference that starts `s`.
pub open spec fn ref_value(s: Seq<char>) -> nat {
    digits_value(s.subrange(1, digit_run(s.drop_first()) + 1 as int))
}

/// The numbers of the instance references `#n` in `s`, left to right; a
/// reference whose number does not fit in `u32` is left out.
pub open spec fn ref_ids(s: Seq<char>) -> Seq<u32>
    decreases s.len(),
{
    if s.len() == 0 {
        Seq::<u32>::empty()
    } else if starts_ref(s) {
        proof {
            lemma_digit_run_bound(s.drop_first());
        }
        let rest = ref_ids(s.skip(digit_run(s.drop_first()) + 1 as int));
        if ref_value(s) <= u32::MAX {
            seq![ref_value(s) as u32] + rest
        } else {
            rest
        }
    } else {
        ref_ids(s.drop_first())
    }
}

/// The number of the first instance reference in `s`, when there is one
/// and it fits in `u32`.
pub open spec fn first_ref(s: Seq<char>) -> Option<u32>
    decreases s.len(),
{
    if s.len() == 0 {
        None
    } else if starts_ref(s) {
        if ref_value(s) <= u32::MAX {
            Some(ref_value(s) as u32)
        } else {
            None
        }
    } else {
        first_ref(s.drop_first())
    }
}

/// The end of the run of digits of `s` that starts at `from`.
fn digits_end(s: &Vec<char>, from: usize) -> (j: usize)
    requires
        from <= s@.len(),
    ensures
        from <= j <= s@.len(),
        digit_run(s@.skip(from as int)) == j - from,
        all_digits(s@.subrange(from as int, j as int)),
{
    let mut j = from;
    while j < s.len() && s[j] >= '0' && s[j] <= '9'
        invariant
            from <= j <= s@.len(),
            digit_run(s@.skip(from as int)) == (j - from) + digit_run(s@.skip(j as int)),
            all_digits(s@.subrange(from as int, j as int)),
        decreases s@.len() - j,
    {
        assert(s@.skip(j as int).drop_first() =~= s@.skip(j + 1));
        assert(s@.subrange(from as int, j + 1).drop_last() =~= s@.subrange(from as int, j as int));
        j = j + 1;
        assert forall|k: int| 0 <= k < j - from implies is_digit(#[trigger] s@.subrange(from as int, j as int)[k]) by {
            if k < j - 1 - from {
                assert(s@.subrange(from as int, j as int)[k] == s@.subrange(from as int, j - 1)[k]);
            }
        }
    }
    j
}

/// Reads the reference that starts at `i`, if one does: where it ends and
/// its number, capped just above `u32::MAX`.
fn reference_at(s: &Vec<char>, i: usize) -> (r: Option<(usize, u64)>)
    requires
        i <= s@.len(),
    ensures
        r is Some == starts_ref(s@.skip(i as int)),
        r matches Some((j, v)) ==> {
            &&& j == i + 1 + digit_run(s@.skip(i as int).drop_first())
            &&& j <= s@.len()
            &&& v == capped(ref_value(s@.skip(i as int)), 0x1_0000_0000)
        },
{
    if i < s.len() && s[i] == '#' {
        let j = digits_end(s, i + 1);
        assert(s@.skip(i as int).drop_first() =~= s@.skip(i + 1));
        if j == i + 1 {
            return None;
        }
        let n = j - i - 1;
        assert(s@.skip(i as int).subrange(1, n + 1) =~= s@.subrange(i + 1, j as int));
        match digits_value_capped(s, i + 1, j, 0x1_0000_0000) {
            Some(v) => Some((j, v)),
            None => None,
        }
    } else {
        None
    }
}

/// The instance references of `s`, in order (see `ref_ids`).
pub fn all_ids(s: &str) -> (r: Vec<Idx>)
    ensures
        r@.map_values(|x: Idx| x.0) == ref_ids(s@),
{
    let cs = chars_of(s);
    let mut out: Vec<Idx> = Vec::new();
    let mut i: usize = 0;
    assert(cs@.skip(0) =~= cs@);
    while i < cs.len()
        invariant
            i <= cs@.len(),
            cs@ == s@,
            ref_ids(s@) == out@.map_values(|x: Idx| x.0) + ref_ids(cs@.skip(i as int)),
        decreases cs@.len() - i,
    {
        let ghost t = cs@.skip(i as int);
        match reference_at(&cs, i) {
            Some((j, v)) => {
                let ghost before = out@;
                assert(t.skip(digit_run(t.drop_first()) + 1 as int) =~= cs@.skip(j as int));
                if v < 0x1_0000_0000 {
                    out.push(Idx(v as u32));
                    assert(out@.map_values(|x: Idx| x.0) =~= before.map_values(|x: Idx| x.0) + seq![v as u32]);
                }
                i = j;
            },
            None => {
                assert(t.drop_first() =~= cs@.skip(i + 1));
                i = i + 1;
            },
        }
    }
    assert(cs@.skip(i as int) =~= Seq::<char>::empty());
    assert(out@.map_values(|x: Idx| x.0) + Seq::<u32>::empty() =~= out@.map_values(|x: Idx| x.0));
    out
}

/// The first instance reference of `s` (see `first_ref`).
pub fn first_id(s: &str) -> (r: Option<Idx>)
    ensures
        r == (match first_ref(s@) {
            Some(v) => Some(Idx(v)),
            None => None::<Idx>,
        }),
{
    let cs = chars_of(s);
    let mut i: usize = 0;
    assert(cs@.skip(0) =~= cs@);
    while i < cs.len()
        invariant
            i <= cs@.len(),
            cs@ == s@,
            first_ref(s@) == first_ref(cs@.skip(i as int)),
        decreases cs@.len() - i,
    {
        match reference_at(&cs, i) {
            Some((_j, v)) => {
                if v < 0x1_0000_0000 {
                    return Some(Idx(v as u32));
                } else {
                    return None;
                }
            },
            None => {
                assert(cs@.skip(i as int).drop_first() =~= cs@.skip(i + 1));
                i = i + 1;
            },
        }
    }
    None
}

/// Characters of a kind name: upper-case ASCII letters, digits and `_`.
pub open spec fn is_kind_char(c: char) -> bool {
    ('A' <= c && c <= 'Z') || ('0' <= c && c <= '9') || c == '_'
}

/// Number of white-space characters at the start of `s`.
pub open spec fn space_run(s: Seq<char>) -> nat
    decreases s.len(),
{
    if s.len() > 0 && is_white_space(s[0]) {
        1 + space_run(s.drop_first())
    } else {
        0
    }
}

/// Number of kind-name characters at the start of `s`.
pub open spec fn kind_run(s: Seq<char>) -> nat
    decreases s.len(),
{
    if s.len() > 0 && is_kind_char(s[0]) {
        1 + kind_run(s.drop_first())
    } else {
        0
    }
}

/// Is there no line feed in `s`?
pub open spec fn single_line(s: Seq<char>) -> bool {
    forall|i: int| 0 <= i < s.len() ==> s[i] != '\n'
}

/// The parts of an entity statement `#id = KIND(args);`: the instance
/// number (0 when it does not fit in `u32`), the kind, and the arguments
/// without white space at either end. White space may stand around `=`;
/// the arguments run from the first `(` after the kind to the `);` that
/// ends the statement, and hold no line feed.
pub open spec fn statement_parts(s: Seq<char>) -> Option<(u32, Seq<char>, Seq<char>)> {
    if !starts_ref(s) {
        None
    } else {
        let p1 = 1 + digit_run(s.drop_first());
        let p2 = p1 + space_run(s.skip(p1 as int));
        if !(p2 < s.len() && s[p2 as int] == '=') {
            None
        } else {
            let p3 = p2 + 1 + space_run(s.skip(p2 + 1 as int));
            let p4 = p3 + kind_run(s.skip(p3 as int));
            if p4 == p3 || !(p4 + 3 <= s.len() && s[p4 as int] == '(' && s[s.len() - 2] == ')' && s[s.len() - 1]
                == ';' && single_line(s.subrange(p4 + 1 as int, s.len() - 2))) {
                None
            } else {
                let id: u32 = if ref_value(s) <= u32::MAX {
                    ref_value(s) as u32
                } else {
                    0
                };
                Some((id, s.subrange(p3 as int, p4 as int), trim(s.subrange(p4 + 1 as int, s.len() - 2))))
            }
        }
    }
}

/// An entity statement `#id = KIND(args);` taken apart.
pub struct EntityStatement {
    pub id: u32,
    pub kind: String,
    pub args: String,
}

/// The end of the run of white space of `s` that starts at `from`.
fn space_end(s: &Vec<char>, from: usize) -> (j: usize)
    requires
        from <= s@.len(),
    ensures
        from <= j <= s@.len(),
        space_run(s@.skip(from as int)) == j - from,
{
    let mut j = from;
    while j < s.len() && is_ws(s[j])
        invariant
            from <= j <= s@.len(),
            space_run(s@.skip(from as int)) == (j - from) + space_run(s@.skip(j as int)),
        decreases s@.len() - j,
    {
        assert(s@.skip(j as int).drop_first() =~= s@.skip(j + 1));
        j = j + 1;
    }
    j
}

/// The end of the run of kind-name characters of `s` that starts at `from`.
fn kind_end(s: &Vec<char>, from: usize) -> (j: usize)
    requires
        from <= s@.len(),
    ensures
        from <= j <= s@.len(),
        kind_run(s@.skip(from as int)) == j - from,
{
    let mut j = from;
    while j < s.len() && (('A' <= s[j] && s[j] <= 'Z') || ('0' <= s[j] && s[j] <= '9') || s[j] == '_')
        invariant
            from <= j <= s@.len(),
            kind_run(s@.skip(from as int)) == (j - from) + kind_run(s@.skip(j as int)),
        decreases s@.len() - j,
    {
        assert(s@.skip(j as int).drop_first() =~= s@.skip(j + 1));
        j = j + 1;
    }
    j
}

/// The string of `s[a..b]`.
fn string_of_range(s: &Vec<char>, a: usize, b: usize) -> (r: String)
    requires
        a <= b <= s@.len(),
    ensures
        r@ == s@.subrange(a as int, b as int),
{
    let mut v: Vec<char> = Vec::new();
    let mut k = a;
    while k < b
        invariant
            a <= k <= b <= s@.len(),
            v@ == s@.subrange(a as int, k as int),
        decreases b - k,
    {
        v.push(s[k]);
        k = k + 1;
        assert(v@ =~= s@.subrange(a as int, k as int));
    }
    string_from_chars(&v)
}

/// Is there no line feed in `s[a..b]`?
fn no_line_feed(s: &Vec<char>, a: usize, b: usize) -> (r: bool)
    requires
        a <= b <= s@.len(),
    ensures
        r == single_line(s@.subrange(a as int, b as int)),
{
    let mut k = a;
    while k < b
        invariant
            a <= k <= b <= s@.len(),
            forall|i: int| 0 <= i < k - a ==> #[trigger] s@.subrange(a as int, b as int)[i] != '\n',
        decreases b - k,
    {
        if s[k] == '\n' {
            assert(s@.subrange(a as int, b as int)[k - a] == '\n');
            return false;
        }
        k = k + 1;
    }
    true
}

/// Takes an entity statement apart (see `statement_parts`).
pub fn parse_statement(stmt: &str) -> (r: Option<EntityStatement>)
    ensures
        r is None <==> statement_parts(stmt@) is None,
        r matches Some(e) ==> statement_parts(stmt@) == Some((e.id, e.kind@, e.args@)),
{
    let cs = chars_of(stmt);
    assert(cs@.skip(0) =~= cs@);
    let (p1, v) = match reference_at(&cs, 0) {
        Some(x) => x,
        None => {
            return None;
        },
    };
    let p2 = space_end(&cs, p1);
    if !(p2 < cs.len() && cs[p2] == '=') {
        return None;
    }
    let p3 = space_end(&cs, p2 + 1);
    let p4 = kind_end(&cs, p3);
    let n = cs.len();
    if p4 == p3 || !(p4 < n && n - p4 >= 3 && cs[p4] == '(' && cs[n - 2] == ')' && cs[n - 1] == ';') {
        return None;
    }
    if !no_line_feed(&cs, p4 + 1, n - 2) {
        return None;
    }
    let (x, y) = trim_at(&cs, p4 + 1, n - 2);
    let id: u32 = if v < 0x1_0000_0000 {
        v as u32
    } else {
        0
    };
    let kind = string_of_range(&cs, p3, p4);
    let args = string_of_range(&cs, x, y);
    Some(EntityStatement { id, kind, args })
}

/// The parts of an entity statement as the lite importer reads it,
/// `#id = KIND (args) ;`: like `statement_parts`, but white space may also
/// stand before `(` and between `)` and `;`, and the arguments are kept as
/// they are.
pub open spec fn lite_statement_parts(s: Seq<char>) -> Option<(u32, Seq<char>, Seq<char>)> {
    if !starts_ref(s) {
        None
    } else {
        let p1 = 1 + digit_run(s.drop_first());
        let p2 = p1 + space_run(s.skip(p1 as int));
        if !(p2 < s.len() && s[p2 as int] == '=') {
            None
        } else {
            let p3 = p2 + 1 + space_run(s.skip(p2 + 1 as int));
            let p4 = p3 + kind_run(s.skip(p3 as int));
            let p5 = p4 + space_run(s.skip(p4 as int));
            if p4 == p3 || !(p5 < s.len() && s[p5 as int] == '(' && s.last() == ';') {
                None
            } else {
                let e = trim_end(s.drop_last()).len();
                if !(e >= p5 + 2 && s[e - 1] == ')' && single_line(s.subrange(p5 + 1 as int, e - 1))) {
                    None
                } else {
                    let id: u32 = if ref_value(s) <= u32::MAX {
                        ref_value(s) as u32
                    } else {
                        0
                    };
                    Some((id, s.subrange(p3 as int, p4 as int), s.subrange(p5 + 1 as int, e - 1)))
                }
            }
        }
    }
}

/// Takes an entity statement apart as the lite importer reads it (see
/// `lite_statement_parts`).
pub fn parse_statement_lite(stmt: &str) -> (r: Option<EntityStatement>)
    ensures
        r is None <==> lite_statement_parts(stmt@) is None,
        r matches Some(e) ==> lite_statement_parts(stmt@) == Some((e.id, e.kind@, e.args@)),
{
    let cs = chars_of(stmt);
    assert(cs@.skip(0) =~= cs@);
    let (p1, v) = match reference_at(&cs, 0) {
        Some(x) => x,
        None => {
            return None;
        },
    };
    let p2 = space_end(&cs, p1);
    if !(p2 < cs.len() && cs[p2] == '=') {
        return None;
    }
    let p3 = space_end(&cs, p2 + 1);
    let p4 = kind_end(&cs, p3);
    let p5 = space_end(&cs, p4);
    let n = cs.len();
    if p4 == p3 || !(p5 < n && cs[p5] == '(' && cs[n - 1] == ';') {
        return None;
    }
    let e = trim_end_at(&cs, 0, n - 1);
    assert(cs@.subrange(0, n - 1) =~= cs@.drop_last());
    assert(cs@.subrange(0, e as int).len() == e);
    if !(e >= p5 + 2 && cs[e - 1] == ')') {
        return None;
    }
    if !no_line_feed(&cs, p5 + 1, e - 1) {
        return None;
    }
    let id: u32 = if v < 0x1_0000_0000 {
        v as u32
    } else {
        0
    };
    let kind = string_of_range(&cs, p3, p4);
    let args = string_of_range(&cs, p5 + 1, e - 1);
    Some(EntityStatement { id, kind, args })
}

/// What a line adds to the statement being gathered by the lite importer:
/// nothing when, trimmed, it is empty or starts a `//` comment; else the
/// trimmed line.
pub open spec fn lite_piece(line: Seq<char>) -> Option<Seq<char>> {
    let l = trim(line);
    if l.len() == 0 || comment_at(l, 0) {
        None
    } else {
        Some(l)
    }
}

/// A statement taken apart, as contracts see it.
pub open spec fn statement_view(e: EntityStatement) -> (u32, Seq<char>, Seq<char>) {
    (e.id, e.kind@, e.args@)
}

/// The statements read so far by the lite importer and the statement being
/// gathered, after one more line: a line that ends with `;` closes the
/// statement, which is kept when it takes apart (see
/// `lite_statement_parts`); otherwise a space follows the line.
pub open spec fn lite_step(st: (Seq<(u32, Seq<char>, Seq<char>)>, Seq<char>), line: Seq<char>) -> (
    Seq<(u32, Seq<char>, Seq<char>)>,
    Seq<char>,
) {
    match lite_piece(line) {
        None => st,
        Some(l) => {
            let cur = st.1 + l;
            if l.last() == ';' {
                (
                    match lite_statement_parts(cur) {
                        Some(x) => st.0.push(x),
                        None => st.0,
                    },
                    Seq::<char>::empty(),
                )
            } else {
                (st.0, cur.push(' '))
            }
        },
    }
}

/// The state of the lite importer after reading the lines in order.
pub open spec fn lite_lines(lines: Seq<Seq<char>>) -> (Seq<(u32, Seq<char>, Seq<char>)>, Seq<char>)
    decreases lines.len(),
{
    if lines.len() == 0 {
        (Seq::empty(), Seq::<char>::empty())
    } else {
        lite_step(lite_lines(lines.drop_last()), lines.last())
    }
}

/// The entity statements of a STEP text as the lite importer reads them.
pub open spec fn lite_statements(t: Seq<char>) -> Seq<(u32, Seq<char>, Seq<char>)> {
    lite_lines(split_lines(t)).0
}

/// Adds the line `s[a..b]` to the statement being gathered by the lite
/// importer (see `lite_step`).
fn lite_line(s: &Vec<char>, a: usize, b: usize, out: &mut Vec<EntityStatement>, cur: &mut Vec<char>)
    requires
        a <= b <= s@.len(),
    ensures
        (final(out)@.map_values(|e: EntityStatement| statement_view(e)), final(cur)@) == lite_step(
            (old(out)@.map_values(|e: EntityStatement| statement_view(e)), old(cur)@),
            s@.subrange(a as int, b as int),
        ),
{
    let ghost line = s@.subrange(a as int, b as int);
    let (x, y) = trim_at(s, a, b);
    let ghost l = s@.subrange(x as int, y as int);
    if y == x {
        assert(l.len() == 0);
        return ;
    }
    if y - x >= 2 && s[x] == '/' && s[x + 1] == '/' {
        assert(comment_at(l, 0));
        return ;
    }
    let ghost old_cur = cur@;
    let mut k = x;
    while k < y
        invariant
            x <= k <= y <= s@.len(),
            cur@ == old_cur + s@.subrange(x as int, k as int),
        decreases y - k,
    {
        cur.push(s[k]);
        k = k + 1;
        assert(cur@ =~= old_cur + s@.subrange(x as int, k as int));
    }
    assert(lite_piece(line) == Some(l));
    if s[y - 1] == ';' {
        let text = string_from_chars(cur);
        let ghost before = out@;
        match parse_statement_lite(text.as_str()) {
            Some(e) => {
                out.push(e);
                assert(out@.map_values(|v: EntityStatement| statement_view(v)) =~= before.map_values(
                    |v: EntityStatement| statement_view(v),
                ).push(statement_view(out@.last())));
            },
            None => {},
        }
        *cur = Vec::new();
    } else {
        cur.push(' ');
    }
}

/// The entity statements of a STEP text as the lite importer reads them
/// (see `lite_statements`): a statement may run over several lines, which
/// are joined with a space; blank lines and lines starting a `//` comment
/// are left out.
pub fn scan_p21(text: &str) -> (r: Vec<EntityStatement>)
    ensures
        r@.map_values(|e: EntityStatement| statement_view(e)) == lite_statements(text@),
{
    let cs = chars_of(text);
    let mut out: Vec<EntityStatement> = Vec::new();
    let mut cur: Vec<char> = Vec::new();
    let mut ss: usize = 0;
    let mut i: usize = 0;
    assert(out@.map_values(|e: EntityStatement| statement_view(e)) =~= Seq::<(u32, Seq<char>, Seq<char>)>::empty());
    while i < cs.len()
        invariant
            ss <= i <= cs@.len(),
            cs@ == text@,
            split_lines(cs@.take(i as int)).len() >= 1,
            (out@.map_values(|e: EntityStatement| statement_view(e)), cur@) == lite_lines(
                split_lines(cs@.take(i as int)).drop_last(),
            ),
            split_lines(cs@.take(i as int)).last() == cs@.subrange(ss as int, i as int),
        decreases cs@.len() - i,
    {
        let ghost pre = split_lines(cs@.take(i as int));
        assert(cs@.take(i + 1).drop_last() =~= cs@.take(i as int));
        if cs[i] == '\n' {
            lite_line(&cs, ss, i, &mut out, &mut cur);
            proof {
                let nxt = split_lines(cs@.take(i + 1));
                assert(nxt == pre.push(Seq::<char>::empty()));
                assert(nxt.drop_last() =~= pre);
                assert(lite_lines(pre) == lite_step(lite_lines(pre.drop_last()), pre.last()));
            }
            ss = i + 1;
            i = i + 1;
            assert(cs@.subrange(ss as int, i as int) =~= Seq::<char>::empty());
        } else {
            proof {
                let nxt = split_lines(cs@.take(i + 1));
                assert(nxt == pre.update(pre.len() - 1, pre.last().push(cs@[i as int])));
                assert(nxt.drop_last() =~= pre.drop_last());
                assert(nxt.last() =~= cs@.subrange(ss as int, i + 1));
            }
            i = i + 1;
        }
    }
    lite_line(&cs, ss, i, &mut out, &mut cur);
    proof {
        let all = split_lines(cs@.take(i as int));
        assert(cs@.take(i as int) =~= text@);
        assert(lite_lines(all) == lite_step(lite_lines(all.drop_last()), all.last()));
    }
    out
}

/// How the arguments of an entity of a given kind are read.
#[derive(Clone, Copy, Debug, PartialEq, Eq, Structural)]
pub enum EntityKind {
    Units,
    CartesianPoint,
    Direction,
    Polyline,
    RectangleProfile,
    ArbitraryProfile,
    Axis2Placement3D,
    LocalPlacement,
    ExtrudedAreaSolid,
    SweptDiskSolid,
    Product,
    ShapeRep,
    Unknown,
}

/// The kinds of building elements read as products.
pub open spec fn is_product_kind(k: Seq<char>) -> bool {
    ||| k == "IFCPRODUCT"@
    ||| k == "IFCBUILDINGELEMENT"@
    ||| k == "IFCCOLUMN"@
    ||| k == "IFCBEAM"@
    ||| k == "IFCPLATE"@
    ||| k == "IFCSLAB"@
    ||| k == "IFCWALL"@
    ||| k == "IFCMEMBER"@
    ||| k == "IFCREINFORCINGBAR"@
    ||| k == "IFCREINFORCINGELEMENT"@
}

/// How an entity of kind `k` is read.
pub open spec fn kind_of(k: Seq<char>) -> EntityKind {
    if k == "IFCSIUNIT"@ || k == "IFCUNITASSIGNMENT"@ {
        EntityKind::Units
    } else if k == "IFCCARTESIANPOINT"@ {
        EntityKind::CartesianPoint
    } else if k == "IFCDIRECTION"@ {
        EntityKind::Direction
    } else if k == "IFCPOLYLINE"@ {
        EntityKind::Polyline
    } else if k == "IFCRECTANGLEPROFILEDEF"@ {
        EntityKind::RectangleProfile
    } else if k == "IFCARBITRARYCLOSEDPROFILEDEF"@ {
        EntityKind::ArbitraryProfile
    } else if k == "IFCAXIS2PLACEMENT3D"@ {
        EntityKind::Axis2Placement3D
    } else if k == "IFCLOCALPLACEMENT"@ {
        EntityKind::LocalPlacement
    } else if k == "IFCEXTRUDEDAREASOLID"@ {
        EntityKind::ExtrudedAreaSolid
    } else if k == "IFCSWEPTDISKSOLID"@ {
        EntityKind::SweptDiskSolid
    } else if is_product_kind(k) {
        EntityKind::Product
    } else if k == "IFCSHAPEREPRESENTATION"@ || k == "IFCSHAPEMODEL"@ {
        EntityKind::ShapeRep
    } else {
        EntityKind::Unknown
    }
}

/// The building elements, columns among them, are read as products: an
/// entity is read as a product exactly when its kind is one of product,
/// building element, column, beam, plate, slab, wall, member, reinforcing
/// bar or reinforcing element.
pub proof fn law_building_elements_are_products(k: Seq<char>)
    ensures
        ({
            ||| k == "IFCPRODUCT"@
            ||| k == "IFCBUILDINGELEMENT"@
            ||| k == "IFCCOLUMN"@
            ||| k == "IFCBEAM"@
            ||| k == "IFCPLATE"@
            ||| k == "IFCSLAB"@
            ||| k == "IFCWALL"@
            ||| k == "IFCMEMBER"@
            ||| k == "IFCREINFORCINGBAR"@
            ||| k == "IFCREINFORCINGELEMENT"@
        }) <==> kind_of(k) == EntityKind::Product,
{
    reveal_strlit("IFCPRODUCT");
    reveal_strlit("IFCBUILDINGELEMENT");
    reveal_strlit("IFCCOLUMN");
    reveal_strlit("IFCBEAM");
    reveal_strlit("IFCPLATE");
    reveal_strlit("IFCSLAB");
    reveal_strlit("IFCWALL");
    reveal_strlit("IFCMEMBER");
    reveal_strlit("IFCREINFORCINGBAR");
    reveal_strlit("IFCREINFORCINGELEMENT");
    reveal_strlit("IFCSIUNIT");
    reveal_strlit("IFCUNITASSIGNMENT");
    reveal_strlit("IFCCARTESIANPOINT");
    reveal_strlit("IFCDIRECTION");
    reveal_strlit("IFCPOLYLINE");
    reveal_strlit("IFCRECTANGLEPROFILEDEF");
    reveal_strlit("IFCARBITRARYCLOSEDPROFILEDEF");
    reveal_strlit("IFCAXIS2PLACEMENT3D");
    reveal_strlit("IFCLOCALPLACEMENT");
    reveal_strlit("IFCEXTRUDEDAREASOLID");
    reveal_strlit("IFCSWEPTDISKSOLID");
    if k == "IFCPRODUCT"@ {
        assert("IFCPRODUCT"@.len() != "IFCSIUNIT"@.len());
        assert("IFCPRODUCT"@.len() != "IFCUNITASSIGNMENT"@.len());
        assert("IFCPRODUCT"@.len() != "IFCCARTESIANPOINT"@.len());
        assert("IFCPRODUCT"@.len() != "IFCDIRECTION"@.len());
        assert("IFCPRODUCT"@.len() != "IFCPOLYLINE"@.len());
        assert("IFCPRODUCT"@.len() != "IFCRECTANGLEPROFILEDEF"@.len());
        assert("IFCPRODUCT"@.len() != "IFCARBITRARYCLOSEDPROFILEDEF"@.len());
        assert("IFCPRODUCT"@.len() != "IFCAXIS2PLACEMENT3D"@.len());
        assert("IFCPRODUCT"@.len() != "IFCLOCALPLACEMENT"@.len());
        assert("IFCPRODUCT"@.len() != "IFCEXTRUDEDAREASOLID"@.len());
        assert("IFCPRODUCT"@.len() != "IFCSWEPTDISKSOLID"@.len());
    }
    if k == "IFCBUILDINGELEMENT"@ {
        assert("IFCBUILDINGELEMENT"@.len() != "IFCSIUNIT"@.len());
        assert("IFCBUILDINGELEMENT"@.len() != "IFCUNITASSIGNMENT"@.len());
        assert("IFCBUILDINGELEMENT"@.len() != "IFCCARTESIANPOINT"@.len());
        assert("IFCBUILDINGELEMENT"@.len() != "IFCDIRECTION"@.len());
        assert("IFCBUILDINGELEMENT"@.len() != "IFCPOLYLINE"@.len());
        assert("IFCBUILDINGELEMENT"@.len() != "IFCRECTANGLEPROFILEDEF"@.len());
        assert("IFCBUILDINGELEMENT"@.len() != "IFCARBITRARYCLOSEDPROFILEDEF"@.len());
        assert("IFCBUILDINGELEMENT"@.len() != "IFCAXIS2PLACEMENT3D"@.len());
        assert("IFCBUILDINGELEMENT"@.len() != "IFCLOCALPLACEMENT"@.len());
        assert("IFCBUILDINGELEMENT"@.len() != "IFCEXTRUDEDAREASOLID"@.len());
        assert("IFCBUILDINGELEMENT"@.len() != "IFCSWEPTDISKSOLID"@.len());
    }
    if k == "IFCCOLUMN"@ {
        assert("IFCCOLUMN"@[3] != "IFCSIUNIT"@[3]);
        assert("IFCCOLUMN"@.len() != "IFCUNITASSIGNMENT"@.len());
        assert("IFCCOLUMN"@.len() != "IFCCARTESIANPOINT"@.len());
        assert("IFCCOLUMN"@.len() != "IFCDIRECTION"@.len());
        assert("IFCCOLUMN"@.len() != "IFCPOLYLINE"@.len());
        assert("IFCCOLUMN"@.len() != "IFCRECTANGLEPROFILEDEF"@.len());
        assert("IFCCOLUMN"@.len() != "IFCARBITRARYCLOSEDPROFILEDEF"@.len());
        assert("IFCCOLUMN"@.len() != "IFCAXIS2PLACEMENT3D"@.len());
        assert("IFCCOLUMN"@.len() != "IFCLOCALPLACEMENT"@.len());
        assert("IFCCOLUMN"@.len() != "IFCEXTRUDEDAREASOLID"@.len());
        assert("IFCCOLUMN"@.len() != "IFCSWEPTDISKSOLID"@.len());
    }
    if k == "IFCBEAM"@ {
        assert("IFCBEAM"@.len() != "IFCSIUNIT"@.len());
        assert("IFCBEAM"@.len() != "IFCUNITASSIGNMENT"@.len());
        assert("IFCBEAM"@.len() != "IFCCARTESIANPOINT"@.len());
        assert("IFCBEAM"@.len() != "IFCDIRECTION"@.len());
        assert("IFCBEAM"@.len() != "IFCPOLYLINE"@.len());
        assert("IFCBEAM"@.len() != "IFCRECTANGLEPROFILEDEF"@.len());
        assert("IFCBEAM"@.len() != "IFCARBITRARYCLOSEDPROFILEDEF"@.len());
        assert("IFCBEAM"@.len() != "IFCAXIS2PLACEMENT3D"@.len());
        assert("IFCBEAM"@.len() != "IFCLOCALPLACEMENT"@.len());
        assert("IFCBEAM"@.len() != "IFCEXTRUDEDAREASOLID"@.len());
        assert("IFCBEAM"@.len() != "IFCSWEPTDISKSOLID"@.len());
    }
    if k == "IFCPLATE"@ {
        assert("IFCPLATE"@.len() != "IFCSIUNIT"@.len());
        assert("IFCPLATE"@.len() != "IFCUNITASSIGNMENT"@.len());
        assert("IFCPLATE"@.len() != "IFCCARTESIANPOINT"@.len());
        assert("IFCPLATE"@.len() != "IFCDIRECTION"@.len());
        assert("IFCPLATE"@.len() != "IFCPOLYLINE"@.len());
        assert("IFCPLATE"@.len() != "IFCRECTANGLEPROFILEDEF"@.len());
        assert("IFCPLATE"@.len() != "IFCARBITRARYCLOSEDPROFILEDEF"@.len());
        assert("IFCPLATE"@.len() != "IFCAXIS2PLACEMENT3D"@.len());
        assert("IFCPLATE"@.len() != "IFCLOCALPLACEMENT"@.len());
        assert("IFCPLATE"@.len() != "IFCEXTRUDEDAREASOLID"@.len());
        assert("IFCPLATE"@.len() != "IFCSWEPTDISKSOLID"@.len());
    }
    if k == "IFCSLAB"@ {
        assert("IFCSLAB"@.len() != "IFCSIUNIT"@.len());
        assert("IFCSLAB"@.len() != "IFCUNITASSIGNMENT"@.len());
        assert("IFCSLAB"@.len() != "IFCCARTESIANPOINT"@.len());
        assert("IFCSLAB"@.len() != "IFCDIRECTION"@.len());
        assert("IFCSLAB"@.len() != "IFCPOLYLINE"@.len());
        assert("IFCSLAB"@.len() != "IFCRECTANGLEPROFILEDEF"@.len());
        assert("IFCSLAB"@.len() != "IFCARBITRARYCLOSEDPROFILEDEF"@.len());
        assert("IFCSLAB"@.len() != "IFCAXIS2PLACEMENT3D"@.len());
        assert("IFCSLAB"@.len() != "IFCLOCALPLACEMENT"@.len());
        assert("IFCSLAB"@.len() != "IFCEXTRUDEDAREASOLID"@.len());
        assert("IFCSLAB"@.len() != "IFCSWEPTDISKSOLID"@.len());
    }
    if k == "IFCWALL"@ {
        assert("IFCWALL"@.len() != "IFCSIUNIT"@.len());
        assert("IFCWALL"@.len() != "IFCUNITASSIGNMENT"@.len());
        assert("IFCWALL"@.len() != "IFCCARTESIANPOINT"@.len());
        assert("IFCWALL"@.len() != "IFCDIRECTION"@.len());
        assert("IFCWALL"@.len() != "IFCPOLYLINE"@.len());
        assert("IFCWALL"@.len() != "IFCRECTANGLEPROFILEDEF"@.len());
        assert("IFCWALL"@.len() != "IFCARBITRARYCLOSEDPROFILEDEF"@.len());
        assert("IFCWALL"@.len() != "IFCAXIS2PLACEMENT3D"@.len());
        assert("IFCWALL"@.len() != "IFCLOCALPLACEMENT"@.len());
        assert("IFCWALL"@.len() != "IFCEXTRUDEDAREASOLID"@.len());
        assert("IFCWALL"@.len() != "IFCSWEPTDISKSOLID"@.len());
    }
    if k == "IFCMEMBER"@ {
        assert("IFCMEMBER"@[3] != "IFCSIUNIT"@[3]);
        assert("IFCMEMBER"@.len() != "IFCUNITASSIGNMENT"@.len());
        assert("IFCMEMBER"@.len() != "IFCCARTESIANPOINT"@.len());
        assert("IFCMEMBER"@.len() != "IFCDIRECTION"@.len());
        assert("IFCMEMBER"@.len() != "IFCPOLYLINE"@.len());
        assert("IFCMEMBER"@.len() != "IFCRECTANGLEPROFILEDEF"@.len());
        assert("IFCMEMBER"@.len() != "IFCARBITRARYCLOSEDPROFILEDEF"@.len());
        assert("IFCMEMBER"@.len() != "IFCAXIS2PLACEMENT3D"@.len());
        assert("IFCMEMBER"@.len() != "IFCLOCALPLACEMENT"@.len());
        assert("IFCMEMBER"@.len() != "IFCEXTRUDEDAREASOLID"@.len());
        assert("IFCMEMBER"@.len() != "IFCSWEPTDISKSOLID"@.len());
    }
    if k == "IFCREINFORCINGBAR"@ {
        assert("IFCREINFORCINGBAR"@.len() != "IFCSIUNIT"@.len());
        assert("IFCREINFORCINGBAR"@[3] != "IFCUNITASSIGNMENT"@[3]);
        assert("IFCREINFORCINGBAR"@[3] != "IFCCARTESIANPOINT"@[3]);
        assert("IFCREINFORCINGBAR"@.len() != "IFCDIRECTION"@.len());
        assert("IFCREINFORCINGBAR"@.len() != "IFCPOLYLINE"@.len());
        assert("IFCREINFORCINGBAR"@.len() != "IFCRECTANGLEPROFILEDEF"@.len());
        assert("IFCREINFORCINGBAR"@.len() != "IFCARBITRARYCLOSEDPROFILEDEF"@.len());
        assert("IFCREINFORCINGBAR"@.len() != "IFCAXIS2PLACEMENT3D"@.len());
        assert("IFCREINFORCINGBAR"@[3] != "IFCLOCALPLACEMENT"@[3]);
        assert("IFCREINFORCINGBAR"@.len() != "IFCEXTRUDEDAREASOLID"@.len());
        assert("IFCREINFORCINGBAR"@[3] != "IFCSWEPTDISKSOLID"@[3]);
    }
    if k == "IFCREINFORCINGELEMENT"@ {
        assert("IFCREINFORCINGELEMENT"@.len() != "IFCSIUNIT"@.len());
        assert("IFCREINFORCINGELEMENT"@.len() != "IFCUNITASSIGNMENT"@.len());
        assert("IFCREINFORCINGELEMENT"@.len() != "IFCCARTESIANPOINT"@.len());
        assert("IFCREINFORCINGELEMENT"@.len() != "IFCDIRECTION"@.len());
        assert("IFCREINFORCINGELEMENT"@.len() != "IFCPOLYLINE"@.len());
        assert("IFCREINFORCINGELEMENT"@.len() != "IFCRECTANGLEPROFILEDEF"@.len());
        assert("IFCREINFORCINGELEMENT"@.len() != "IFCARBITRARYCLOSEDPROFILEDEF"@.len());
        assert("IFCREINFORCINGELEMENT"@.len() != "IFCAXIS2PLACEMENT3D"@.len());
        assert("IFCREINFORCINGELEMENT"@.len() != "IFCLOCALPLACEMENT"@.len());
        assert("IFCREINFORCINGELEMENT"@.len() != "IFCEXTRUDEDAREASOLID"@.len());
        assert("IFCREINFORCINGELEMENT"@.len() != "IFCSWEPTDISKSOLID"@.len());
    }
}

/// Are `a` and `b` the same text?
pub fn same_text(a: &str, b: &str) -> (r: bool)
    ensures
        r == (a@ == b@),
{
    let x = chars_of(a);
    let y = chars_of(b);
    if x.len() != y.len() {
        return false;
    }
    let mut i: usize = 0;
    while i < x.len()
        invariant
            i <= x@.len(),
            x@.len() == y@.len(),
            x@ == a@,
            y@ == b@,
            forall|k: int| 0 <= k < i ==> x@[k] == y@[k],
        decreases x@.len() - i,
    {
        if x[i] != y[i] {
            return false;
        }
        i = i + 1;
    }
    assert(x@ =~= y@);
    true
}

/// How an entity of the given kind is read (see `kind_of`).
pub fn entity_kind(kind: &str) -> (r: EntityKind)
    ensures
        r == kind_of(kind@),
{
    if same_text(kind, "IFCSIUNIT") || same_text(kind, "IFCUNITASSIGNMENT") {
        EntityKind::Units
    } else if same_text(kind, "IFCCARTESIANPOINT") {
        EntityKind::CartesianPoint
    } else if same_text(kind, "IFCDIRECTION") {
        EntityKind::Direction
    } else if same_text(kind, "IFCPOLYLINE") {
        EntityKind::Polyline
    } else if same_text(kind, "IFCRECTANGLEPROFILEDEF") {
        EntityKind::RectangleProfile
    } else if same_text(kind, "IFCARBITRARYCLOSEDPROFILEDEF") {
        EntityKind::ArbitraryProfile
    } else if same_text(kind, "IFCAXIS2PLACEMENT3D") {
        EntityKind::Axis2Placement3D
    } else if same_text(kind, "IFCLOCALPLACEMENT") {
        EntityKind::LocalPlacement
    } else if same_text(kind, "IFCEXTRUDEDAREASOLID") {
        EntityKind::ExtrudedAreaSolid
    } else if same_text(kind, "IFCSWEPTDISKSOLID") {
        EntityKind::SweptDiskSolid
    } else if same_text(kind, "IFCPRODUCT") || same_text(kind, "IFCBUILDINGELEMENT") || same_text(kind, "IFCCOLUMN")
        || same_text(kind, "IFCBEAM") || same_text(kind, "IFCPLATE") || same_text(kind, "IFCSLAB") || same_text(
        kind,
        "IFCWALL",
    ) || same_text(kind, "IFCMEMBER") || same_text(kind, "IFCREINFORCINGBAR") || same_text(
        kind,
        "IFCREINFORCINGELEMENT",
    ) {
        EntityKind::Product
    } else if same_text(kind, "IFCSHAPEREPRESENTATION") || same_text(kind, "IFCSHAPEMODEL") {
        EntityKind::ShapeRep
    } else {
        EntityKind::Unknown
    }
}

/// Does `p` occur in `s`?
pub open spec fn contains_text(s: Seq<char>, p: Seq<char>) -> bool {
    exists|i: int| 0 <= i && i + p.len() <= s.len() && #[trigger] s.subrange(i, i + p.len()) == p
}

/// Does `p` occur in `s`?
pub fn contains(s: &str, p: &str) -> (r: bool)
    ensures
        r == contains_text(s@, p@),
{
    let x = chars_of(s);
    let y = chars_of(p);
    if y.len() > x.len() {
        return false;
    }
    if y.len() == 0 {
        assert(x@.subrange(0, 0 + y@.len() as int) =~= y@);
        return true;
    }
    let last = x.len() - y.len();
    let mut i: usize = 0;
    while i <= last
        invariant
            last == x@.len() - y@.len(),
            x@.len() == x.len(),
            y@.len() > 0,
            x@ == s@,
            y@ == p@,
            forall|j: int| 0 <= j < i ==> #[trigger] x@.subrange(j, j + y@.len()) != y@,
        decreases last + 1 - i,
    {
        let mut k: usize = 0;
        while k < y.len() && x[i + k] == y[k]
            invariant
                i <= last,
                last == x@.len() - y@.len(),
                x@.len() == x.len(),
                y@.len() <= x@.len(),
                k <= y@.len(),
                forall|q: int| 0 <= q < k ==> x@[i + q] == y@[q],
            decreases y@.len() - k,
        {
            k = k + 1;
        }
        if k == y.len() {
            assert(x@.subrange(i as int, i + y@.len()) =~= y@);
            return true;
        }
        assert(x@.subrange(i as int, i + y@.len())[k as int] != y@[k as int]);
        i = i + 1;
    }
    false
}

/// Units of length.
#[derive(Clone, Copy, Debug, PartialEq, Eq, Structural)]
pub enum UnitLen {
    MilliMetre,
    Metre,
}

/// The length unit that a unit entity sets, if it is one: millimetres
/// when `.MILLI.` occurs beside `.LENGTHUNIT.`, else metres.
pub fn parse_units(args: &str) -> (r: Option<UnitLen>)
    ensures
        r == if contains_text(args@, ".LENGTHUNIT."@) {
            if contains_text(args@, ".MILLI."@) {
                Some(UnitLen::MilliMetre)
            } else {
                Some(UnitLen::Metre)
            }
        } else {
            None::<UnitLen>
        },
{
    if contains(args, ".LENGTHUNIT.") {
        if contains(args, ".MILLI.") {
            Some(UnitLen::MilliMetre)
        } else if contains(args, ".METRE.") {
            Some(UnitLen::Metre)
        } else {
            Some(UnitLen::Metre)
        }
    } else {
        None
    }
}

/// The `k`-th reference of `ids`, if there is one.
pub open spec fn nth_ref(ids: Seq<u32>, k: int) -> Option<Idx> {
    if 0 <= k < ids.len() {
        Some(Idx(ids[k]))
    } else {
        None
    }
}

/// The `k`-th of `ids`, or `None`.
fn get_idx(ids: &Vec<Idx>, k: usize) -> (r: Option<Idx>)
    ensures
        r == nth_ref(ids@.map_values(|x: Idx| x.0), k as int),
{
    if k < ids.len() {
        Some(ids[k])
    } else {
        None
    }
}

/// The points of a polyline.
pub fn parse_polyline(args: &str) -> (r: Vec<Idx>)
    ensures
        r@.map_values(|x: Idx| x.0) == ref_ids(args@),
{
    all_ids(args)
}

/// The polyline of an arbitrary closed profile; `#0` when there is none.
pub fn parse_arbitrary_profile(args: &str) -> (r: Idx)
    ensures
        r == (match first_ref(args@) {
            Some(v) => Idx(v),
            None => Idx(0),
        }),
{
    match first_id(args) {
        Some(i) => i,
        None => Idx(0),
    }
}

/// The location (`#0` when missing), axis and reference direction of a
/// placement: its first three references.
pub fn parse_axis2placement3d(args: &str) -> (r: (Idx, Option<Idx>, Option<Idx>))
    ensures
        r.0 == (match nth_ref(ref_ids(args@), 0) {
            Some(i) => i,
            None => Idx(0),
        }),
        r.1 == nth_ref(ref_ids(args@), 1),
        r.2 == nth_ref(ref_ids(args@), 2),
{
    let ids = all_ids(args);
    let location = match get_idx(&ids, 0) {
        Some(i) => i,
        None => Idx(0),
    };
    (location, get_idx(&ids, 1), get_idx(&ids, 2))
}

/// The placement relative to which a local placement stands, and its own
/// placement (`#0` when missing): its first two references.
pub fn parse_local_placement(args: &str) -> (r: (Option<Idx>, Idx))
    ensures
        r.0 == nth_ref(ref_ids(args@), 0),
        r.1 == (match nth_ref(ref_ids(args@), 1) {
            Some(i) => i,
            None => Idx(0),
        }),
{
    let ids = all_ids(args);
    let placement = match get_idx(&ids, 1) {
        Some(i) => i,
        None => Idx(0),
    };
    (get_idx(&ids, 0), placement)
}

/// The object placement and the representation of a product: its first two
/// references.
pub fn parse_product(args: &str) -> (r: (Option<Idx>, Option<Idx>))
    ensures
        r.0 == nth_ref(ref_ids(args@), 0),
        r.1 == nth_ref(ref_ids(args@), 1),
{
    let ids = all_ids(args);
    (get_idx(&ids, 0), get_idx(&ids, 1))
}

/// The items of a shape representation.
pub fn parse_shape_rep(args: &str) -> (r: Vec<Idx>)
    ensures
        r@.map_values(|x: Idx| x.0) == ref_ids(args@),
{
    all_ids(args)
}

proof fn lemma_scan_lines_end(lines: Seq<Seq<char>>)
    ensures
        forall|i: int|
            0 <= i < scan_lines(lines).0.len() ==> #[trigger] scan_lines(lines).0[i].len() > 0 && scan_lines(
                lines,
            ).0[i].last() == ';' && lite_statement_parts(scan_lines(lines).0[i]) is Some,
    decreases lines.len(),
{
    if lines.len() > 0 {
        lemma_scan_lines_end(lines.drop_last());
        let prev = scan_lines(lines.drop_last());
        let r = scan_lines(lines);
        assert(r == scan_step(prev, lines.last()));
        match line_piece(lines.last()) {
            None => {},
            Some(p) => {
                let cur = prev.1 + p;
                if cur.len() > 0 && cur.last() == ';' && lite_statement_parts(cur) is Some {
                    assert(r.0 == prev.0.push(cur));
                    assert forall|i: int| 0 <= i < r.0.len() implies #[trigger] r.0[i].len() > 0 && r.0[i].last()
                        == ';' && lite_statement_parts(r.0[i]) is Some by {
                        if i < prev.0.len() {
                            assert(r.0[i] == prev.0[i]);
                        }
                    }
                }
            },
        }
    }
}

/// Every statement that the reader gathers is an entity statement
/// `#id = KIND(args);`, ending with `;`.
pub proof fn law_gathered_statements_are_entities(t: Seq<char>)
    ensures
        forall|i: int|
            0 <= i < p21_statements(t).len() ==> #[trigger] p21_statements(t)[i].len() > 0 && p21_statements(
                t,
            )[i].last() == ';' && lite_statement_parts(p21_statements(t)[i]) is Some,
{
    lemma_scan_lines_end(split_lines(t));
}

/// When the first reference of a text can be read, it is also the first of
/// all its references.
pub proof fn law_first_id_leads_all_ids(s: Seq<char>)
    requires
        first_ref(s) is Some,
    ensures
        ref_ids(s).len() > 0,
        ref_ids(s)[0] == first_ref(s)->0,
    decreases s.len(),
{
    if !starts_ref(s) {
        law_first_id_leads_all_ids(s.drop_first());
    }
}

/// The name of an imported model: the name in the file's header, trimmed,
/// when there is one; else the file's name; else `IFC Model`.
pub open spec fn model_name_spec(header_name: Seq<char>, file_name: Option<Seq<char>>) -> Seq<char> {
    if trim(header_name).len() > 0 {
        trim(header_name)
    } else {
        match file_name {
            Some(f) => f,
            None => "IFC Model"@,
        }
    }
}

/// The name of an imported model (see `model_name_spec`).
pub fn model_name(header_name: &str, file_name: Option<&str>) -> (r: String)
    ensures
        r@ == model_name_spec(
            header_name@,
            match file_name {
                Some(f) => Some(f@),
                None => None,
            },
        ),
{
    let cs = chars_of(header_name);
    let (a, b) = trim_at(&cs, 0, cs.len());
    assert(cs@.subrange(0, cs@.len() as int) =~= cs@);
    if b > a {
        string_of_range(&cs, a, b)
    } else {
        match file_name {
            Some(f) => f.to_owned(),
            None => {
                proof {
                    reveal_strlit("IFC Model");
                }
                "IFC Model".to_owned()
            },
        }
    }
}

} // verus!
