use vstd::prelude::*;

verus! {

broadcast use vstd::std_specs::vec::group_vec_axioms;

/// Unicode `White_Space`, the property that `char::is_whitespace` tests.
pub open spec fn is_whitespace(c: char) -> bool {
    let u = c as u32;
    ||| 0x09 <= u <= 0x0D
    ||| u == 0x20
    ||| u == 0x85
    ||| u == 0xA0
    ||| u == 0x1680
    ||| 0x2000 <= u <= 0x200A
    ||| u == 0x2028
    ||| u == 0x2029
    ||| u == 0x202F
    ||| u == 0x205F
    ||| u == 0x3000
}

/// The general category Cc, the property that `char::is_control` tests.
pub open spec fn is_control(c: char) -> bool {
    let u = c as u32;
    u <= 0x1F || (0x7F <= u <= 0x9F)
}

/// `s` without the leading characters that satisfy `p`.
pub open spec fn trim_start_by(s: Seq<char>, p: spec_fn(char) -> bool) -> Seq<char>
    decreases s.len(),
{
    if s.len() > 0 && p(s[0]) {
        trim_start_by(s.drop_first(), p)
    } else {
        s
    }
}

/// `s` without the trailing characters that satisfy `p`.
pub open spec fn trim_end_by(s: Seq<char>, p: spec_fn(char) -> bool) -> Seq<char>
    decreases s.len(),
{
    if s.len() > 0 && p(s.last()) {
        trim_end_by(s.drop_last(), p)
    } else {
        s
    }
}

/// `s` without leading and trailing characters that satisfy `p` (`str::trim_matches`).
pub open spec fn trim_by(s: Seq<char>, p: spec_fn(char) -> bool) -> Seq<char> {
    trim_end_by(trim_start_by(s, p), p)
}

/// `str::trim`: `s` without leading and trailing whitespace.
pub open spec fn trim(s: Seq<char>) -> Seq<char> {
    trim_by(s, whitespace_pred())
}

/// `char::is_whitespace` as a predicate.
pub open spec fn whitespace_pred() -> spec_fn(char) -> bool {
    |c: char| is_whitespace(c)
}

pub fn is_whitespace_char(c: char) -> (b: bool)
    ensures
        b == is_whitespace(c),
{
    let u = c as u32;
    (0x09 <= u && u <= 0x0D) || u == 0x20 || u == 0x85 || u == 0xA0 || u == 0x1680 || (0x2000
        <= u && u <= 0x200A) || u == 0x2028 || u == 0x2029 || u == 0x202F || u == 0x205F || u
        == 0x3000
}

pub fn is_control_char(c: char) -> (b: bool)
    ensures
        b == is_control(c),
{
    let u = c as u32;
    u <= 0x1F || (0x7F <= u && u <= 0x9F)
}

/// The characters of `s`, in order.
pub fn chars_of(s: &str) -> (v: Vec<char>)
    ensures
        v@ == s@,
{
    let mut v: Vec<char> = Vec::new();
    for c in it: s.chars()
        invariant
            it.seq() == s@,
            v@ == it.seq().take(it.index()),
    {
        v.push(c);
    }
    v
}

/// A `String` that holds the characters of `v`, in order (`FromIterator<char>`).
#[verifier::external_body]
pub(crate) fn string_from_chars(v: &Vec<char>) -> (s: String)
    ensures
        s@ == v@,
{
    v.iter().collect()
}

/// `v[start..end]` as a new vector.
pub fn sub_chars(v: &Vec<char>, start: usize, end: usize) -> (r: Vec<char>)
    requires
        start <= end <= v.len(),
    ensures
        r@ == v@.subrange(start as int, end as int),
{
    let mut r: Vec<char> = Vec::new();
    let mut i = start;
    while i < end
        invariant
            start <= i <= end <= v.len(),
            r@ == v@.subrange(start as int, i as int),
        decreases end - i,
    {
        r.push(v[i]);
        i += 1;
        assert(r@ =~= v@.subrange(start as int, i as int));
    }
    r
}

/// Appends the characters of `tail` to `v`.
pub fn push_all(v: &mut Vec<char>, tail: &Vec<char>)
    ensures
        final(v)@ == old(v)@ + tail@,
{
    let mut i: usize = 0;
    while i < tail.len()
        invariant
            i <= tail.len(),
            v@ == old(v)@ + tail@.subrange(0, i as int),
        decreases tail.len() - i,
    {
        v.push(tail[i]);
        i += 1;
        assert(v@ =~= old(v)@ + tail@.subrange(0, i as int));
    }
    assert(tail@.subrange(0, tail.len() as int) =~= tail@);
}

/// Appends the characters of `tail` to `v`.
pub fn push_str(v: &mut Vec<char>, tail: &str)
    ensures
        final(v)@ == old(v)@ + tail@,
{
    let t = chars_of(tail);
    push_all(v, &t);
}

proof fn lemma_trim_start_step(s: Seq<char>, i: int, p: spec_fn(char) -> bool)
    requires
        0 <= i < s.len(),
        p(s[i]),
    ensures
        trim_start_by(s.subrange(i, s.len() as int), p) == trim_start_by(
            s.subrange(i + 1, s.len() as int),
            p,
        ),
{
    assert(s.subrange(i, s.len() as int).drop_first() =~= s.subrange(i + 1, s.len() as int));
}

proof fn lemma_trim_end_step(s: Seq<char>, a: int, j: int, p: spec_fn(char) -> bool)
    requires
        0 <= a < j <= s.len(),
        p(s[j - 1]),
    ensures
        trim_end_by(s.subrange(a, j), p) == trim_end_by(s.subrange(a, j - 1), p),
{
    assert(s.subrange(a, j).drop_last() =~= s.subrange(a, j - 1));
}

/// The bounds of `v` once leading and trailing whitespace are removed.
pub fn trim_bounds(v: &Vec<char>) -> (r: (usize, usize))
    ensures
        r.0 <= r.1 <= v.len(),
        v@.subrange(r.0 as int, r.1 as int) == trim(v@),
{
    let mut i: usize = 0;
    assert(v@.subrange(0, v.len() as int) =~= v@);
    while i < v.len() && is_whitespace_char(v[i])
        invariant
            i <= v.len(),
            trim_start_by(v@, whitespace_pred()) == trim_start_by(v@.subrange(i as int, v.len() as int), whitespace_pred()),
        decreases v.len() - i,
    {
        proof {
            lemma_trim_start_step(v@, i as int, whitespace_pred());
        }
        i += 1;
    }
    assert(trim_start_by(v@, whitespace_pred()) == v@.subrange(i as int, v.len() as int));
    let mut j: usize = v.len();
    while j > i && is_whitespace_char(v[j - 1])
        invariant
            i <= j <= v.len(),
            trim(v@) == trim_end_by(v@.subrange(i as int, j as int), whitespace_pred()),
        decreases j,
    {
        proof {
            lemma_trim_end_step(v@, i as int, j as int, whitespace_pred());
        }
        j -= 1;
    }
    (i, j)
}

/// `str::trim` over characters.
pub fn trim_chars(v: &Vec<char>) -> (r: Vec<char>)
    ensures
        r@ == trim(v@),
{
    let (a, b) = trim_bounds(v);
    sub_chars(v, a, b)
}

/// Whether two character vectors hold the same characters.
pub fn chars_eq(a: &Vec<char>, b: &Vec<char>) -> (r: bool)
    ensures
        r == (a@ == b@),
{
    if a.len() != b.len() {
        return false;
    }
    let mut i: usize = 0;
    while i < a.len()
        invariant
            a.len() == b.len(),
            i <= a.len(),
            forall|k: int| 0 <= k < i ==> a@[k] == b@[k],
        decreases a.len() - i,
    {
        if a[i] != b[i] {
            return false;
        }
        i += 1;
    }
    assert(a@ =~= b@);
    true
}

/// The pieces of `s` between its newlines: `n` newlines give `n + 1` pieces.
pub open spec fn split_newlines(s: Seq<char>) -> Seq<Seq<char>>
    decreases s.len(),
{
    if s.len() == 0 {
        seq![Seq::empty()]
    } else {
        let p = split_newlines(s.drop_last());
        if s.last() == '\n' {
            p.push(Seq::empty())
        } else {
            p.update(p.len() - 1, p.last().push(s.last()))
        }
    }
}

pub proof fn lemma_split_newlines_len(s: Seq<char>)
    ensures
        split_newlines(s).len() >= 1,
    decreases s.len(),
{
    if s.len() > 0 {
        lemma_split_newlines_len(s.drop_last());
    }
}

/// A line without the carriage return that ends it, if any.
pub open spec fn strip_cr(line: Seq<char>) -> Seq<char> {
    if line.len() > 0 && line.last() == '\r' {
        line.drop_last()
    } else {
        line
    }
}

pub open spec fn strip_cr_fn() -> spec_fn(Seq<char>) -> Seq<char> {
    |line: Seq<char>| strip_cr(line)
}

/// `str::lines`: the pieces between newlines, each without a carriage return
/// before its newline; a last piece that is empty is no line.
pub open spec fn lines(s: Seq<char>) -> Seq<Seq<char>> {
    let p = split_newlines(s);
    let body = p.drop_last().map_values(strip_cr_fn());
    if p.last().len() == 0 {
        body
    } else {
        body.push(p.last())
    }
}

/// `[T]::join`: the lines with `sep` between each two.
pub open spec fn join(lines: Seq<Seq<char>>, sep: Seq<char>) -> Seq<char>
    decreases lines.len(),
{
    if lines.len() == 0 {
        Seq::empty()
    } else if lines.len() == 1 {
        lines[0]
    } else {
        join(lines.drop_last(), sep) + sep + lines.last()
    }
}

/// `s` holds a carriage return followed by a newline.
pub open spec fn contains_crlf(s: Seq<char>) -> bool {
    exists|i: int| 0 <= i < s.len() - 1 && #[trigger] s[i] == '\r' && s[i + 1] == '\n'
}

/// The models of a list of character vectors.
pub open spec fn char_lines(v: Seq<Vec<char>>) -> Seq<Seq<char>> {
    v.map_values(|l: Vec<char>| l@)
}

/// `str::lines` over characters.
pub fn split_lines(text: &Vec<char>) -> (r: Vec<Vec<char>>)
    ensures
        char_lines(r@) == lines(text@),
{
    let mut done: Vec<Vec<char>> = Vec::new();
    let mut current: Vec<char> = Vec::new();
    let mut i: usize = 0;
    proof {
        assert(text@.subrange(0, 0) =~= Seq::<char>::empty());
    }
    while i < text.len()
        invariant
            i <= text.len(),
            split_newlines(text@.subrange(0, i as int)).len() >= 1,
            char_lines(done@) == split_newlines(text@.subrange(0, i as int)).drop_last().map_values(strip_cr_fn()),
            current@ == split_newlines(text@.subrange(0, i as int)).last(),
        decreases text.len() - i,
    {
        let ghost prefix = text@.subrange(0, i as int);
        let ghost next = text@.subrange(0, i + 1);
        proof {
            assert(next.drop_last() =~= prefix);
            lemma_split_newlines_len(prefix);
        }
        let c = text[i];
        if c == '\n' {
            let mut line = current;
            if line.len() > 0 && line[line.len() - 1] == '\r' {
                line.pop();
            }
            let ghost old_done = char_lines(done@);
            done.push(line);
            current = Vec::new();
            proof {
                assert(char_lines(done@) =~= old_done.push(strip_cr(split_newlines(prefix).last())));
                assert(split_newlines(next).drop_last() =~= split_newlines(prefix));
                assert(split_newlines(prefix).drop_last().push(split_newlines(prefix).last()) =~= split_newlines(prefix));
                assert(split_newlines(next).drop_last().map_values(strip_cr_fn()) =~= old_done.push(strip_cr(split_newlines(prefix).last())));
            }
        } else {
            current.push(c);
            proof {
                assert(split_newlines(next).drop_last() =~= split_newlines(prefix).drop_last());
            }
        }
        i += 1;
    }
    proof {
        assert(text@.subrange(0, text.len() as int) =~= text@);
    }
    if current.len() > 0 {
        let ghost old_done = char_lines(done@);
        done.push(current);
        proof {
            assert(char_lines(done@) =~= old_done.push(split_newlines(text@).last()));
        }
    }
    done
}

/// Joins `parts` with `sep` between each two.
pub fn join_lines(parts: &Vec<Vec<char>>, sep: &Vec<char>) -> (r: Vec<char>)
    ensures
        r@ == join(char_lines(parts@), sep@),
{
    let mut out: Vec<char> = Vec::new();
    let mut k: usize = 0;
    while k < parts.len()
        invariant
            k <= parts.len(),
            out@ == join(char_lines(parts@).take(k as int), sep@),
        decreases parts.len() - k,
    {
        let ghost before = out@;
        if k > 0 {
            push_all(&mut out, sep);
        }
        push_all(&mut out, &parts[k]);
        proof {
            let t = char_lines(parts@).take(k + 1);
            assert(t.drop_last() =~= char_lines(parts@).take(k as int));
            if k == 0 {
                assert(t.len() == 1);
            }
        }
        k += 1;
    }
    proof {
        assert(char_lines(parts@).take(parts.len() as int) =~= char_lines(parts@));
    }
    out
}

/// Whether `v` holds a carriage return followed by a newline.
pub fn has_crlf(v: &Vec<char>) -> (r: bool)
    ensures
        r == contains_crlf(v@),
{
    let mut i: usize = 0;
    while i < v.len()
        invariant
            i <= v.len(),
            forall|j: int| 0 <= j < i && j < v.len() - 1 ==> !(#[trigger] v@[j] == '\r' && v@[j + 1] == '\n'),
        decreases v.len() - i,
    {
        if v[i] == '\r' && i + 1 < v.len() && v[i + 1] == '\n' {
            return true;
        }
        i += 1;
    }
    false
}

/// Whether `v` ends with `suffix`.
pub fn ends_with(v: &Vec<char>, suffix: &Vec<char>) -> (r: bool)
    ensures
        r == (suffix@.len() <= v@.len() && v@.subrange(v@.len() - suffix@.len(), v@.len() as int) == suffix@),
{
    if suffix.len() > v.len() {
        return false;
    }
    let start = v.len() - suffix.len();
    let mut i: usize = 0;
    while i < suffix.len()
        invariant
            start + suffix.len() == v.len(),
            i <= suffix.len(),
            forall|j: int| 0 <= j < i ==> v@[start + j] == suffix@[j],
        decreases suffix.len() - i,
    {
        if v[start + i] != suffix[i] {
            assert(v@.subrange(start as int, v@.len() as int)[i as int] != suffix@[i as int]);
            return false;
        }
        i += 1;
    }
    assert(v@.subrange(start as int, v@.len() as int) =~= suffix@);
    true
}

/// The decimal digit `d` as a character.
pub open spec fn digit_char(d: nat) -> char {
    (48 + d) as char
}

/// The decimal notation of `n`, without leading zeros (`Display` for unsigned integers).
pub open spec fn decimal(n: nat) -> Seq<char>
    decreases n,
{
    if n < 10 {
        seq![digit_char(n)]
    } else {
        decimal(n / 10).push(digit_char(n % 10))
    }
}

/// The decimal notation of `n`, with a minus sign when negative (`Display` for signed integers).
pub open spec fn signed_decimal(n: int) -> Seq<char> {
    if n < 0 {
        seq!['-'] + decimal((-n) as nat)
    } else {
        decimal(n as nat)
    }
}

fn digit(d: u64) -> (c: char)
    requires
        d < 10,
    ensures
        c == digit_char(d as nat),
{
    let b: u8 = 48u8 + (d as u8);
    b as char
}

/// The decimal notation of `n`.
pub fn decimal_chars(n: u64) -> (r: Vec<char>)
    ensures
        r@ == decimal(n as nat),
    decreases n,
{
    if n < 10 {
        let mut r: Vec<char> = Vec::new();
        r.push(digit(n));
        r
    } else {
        let mut r = decimal_chars(n / 10);
        r.push(digit(n % 10));
        r
    }
}

/// The decimal notation of `n`, with a minus sign when negative.
pub fn signed_decimal_chars(n: i64) -> (r: Vec<char>)
    ensures
        r@ == signed_decimal(n as int),
{
    if n < 0 {
        let magnitude: u64 = ((-(n as i128)) as u64);
        let digits = decimal_chars(magnitude);
        let mut r: Vec<char> = Vec::new();
        r.push('-');
        push_all(&mut r, &digits);
        r
    } else {
        decimal_chars(n as u64)
    }
}

/// `c == '.'` as a predicate.
pub open spec fn dot_pred() -> spec_fn(char) -> bool {
    |c: char| c == '.'
}

/// `str::trim_matches('.')` over characters.
pub fn trim_dots(v: &Vec<char>) -> (r: Vec<char>)
    ensures
        r@ == trim_by(v@, dot_pred()),
{
    let mut i: usize = 0;
    assert(v@.subrange(0, v.len() as int) =~= v@);
    while i < v.len() && v[i] == '.'
        invariant
            i <= v.len(),
            trim_start_by(v@, dot_pred()) == trim_start_by(v@.subrange(i as int, v.len() as int), dot_pred()),
        decreases v.len() - i,
    {
        proof {
            lemma_trim_start_step(v@, i as int, dot_pred());
        }
        i += 1;
    }
    assert(trim_start_by(v@, dot_pred()) == v@.subrange(i as int, v.len() as int));
    let mut j: usize = v.len();
    while j > i && v[j - 1] == '.'
        invariant
            i <= j <= v.len(),
            trim_by(v@, dot_pred()) == trim_end_by(v@.subrange(i as int, j as int), dot_pred()),
        decreases j,
    {
        proof {
            lemma_trim_end_step(v@, i as int, j as int, dot_pred());
        }
        j -= 1;
    }
    sub_chars(v, i, j)
}

/// A character that file names may not hold, on any of the supported systems.
pub open spec fn is_forbidden_in_filename(c: char) -> bool {
    c == '/' || c == '\\' || c == ':' || c == '*' || c == '?' || c == '"' || c == '<' || c == '>'
        || c == '|' || c == '\0'
}

/// `c`, or `-` where a file name may not hold it.
pub open spec fn filename_char(c: char) -> char {
    if is_forbidden_in_filename(c) || is_control(c) {
        '-'
    } else {
        c
    }
}

/// `value` made fit for a file name: forbidden and control characters become
/// `-`, then whitespace, dots and whitespace again are trimmed from both ends.
pub open spec fn cleaned_filename(value: Seq<char>) -> Seq<char> {
    trim(trim_by(trim(value.map_values(|c: char| filename_char(c))), dot_pred()))
}

/// `value` made fit for a file name, or `fallback` when nothing is left.
pub open spec fn sanitized_filename(value: Seq<char>, fallback: Seq<char>) -> Seq<char> {
    if cleaned_filename(value).len() == 0 {
        fallback
    } else {
        cleaned_filename(value)
    }
}

/// `value` made fit for a file name, or `fallback` when nothing is left.
pub fn sanitize_filename_or(value: &str, fallback: &str) -> (r: String)
    ensures
        r@ == sanitized_filename(value@, fallback@),
{
    let chars = chars_of(value);
    let mut mapped: Vec<char> = Vec::new();
    let mut i: usize = 0;
    while i < chars.len()
        invariant
            i <= chars.len(),
            mapped@ == chars@.take(i as int).map_values(|c: char| filename_char(c)),
        decreases chars.len() - i,
    {
        let c = chars[i];
        let forbidden = c == '/' || c == '\\' || c == ':' || c == '*' || c == '?' || c == '"' || c
            == '<' || c == '>' || c == '|' || c == '\0';
        let out = if forbidden || is_control_char(c) {
            '-'
        } else {
            c
        };
        mapped.push(out);
        i += 1;
        assert(mapped@ =~= chars@.take(i as int).map_values(|c: char| filename_char(c)));
    }
    assert(chars@.take(chars.len() as int) =~= chars@);
    let cleaned = trim_chars(&trim_dots(&trim_chars(&mapped)));
    if cleaned.len() == 0 {
        String::from_str(fallback)
    } else {
        string_from_chars(&cleaned)
    }
}

/// Trimming keeps a contiguous part of the text.
pub proof fn lemma_trim_by_subrange(s: Seq<char>, p: spec_fn(char) -> bool) -> (r: (int, int))
    ensures
        0 <= r.0 <= r.1 <= s.len(),
        trim_by(s, p) == s.subrange(r.0, r.1),
{
    let a = lemma_trim_start_subrange(s, p);
    let t = trim_start_by(s, p);
    let b = lemma_trim_end_subrange(t, p);
    assert(s.subrange(a, s.len() as int).subrange(0, b) =~= s.subrange(a, a + b));
    (a, a + b)
}

proof fn lemma_trim_start_subrange(s: Seq<char>, p: spec_fn(char) -> bool) -> (a: int)
    ensures
        0 <= a <= s.len(),
        trim_start_by(s, p) == s.subrange(a, s.len() as int),
    decreases s.len(),
{
    if s.len() > 0 && p(s[0]) {
        let a = lemma_trim_start_subrange(s.drop_first(), p);
        assert(s.drop_first().subrange(a, s.drop_first().len() as int) =~= s.subrange(a + 1, s.len() as int));
        a + 1
    } else {
        assert(s.subrange(0, s.len() as int) =~= s);
        0
    }
}

proof fn lemma_trim_end_subrange(s: Seq<char>, p: spec_fn(char) -> bool) -> (b: int)
    ensures
        0 <= b <= s.len(),
        trim_end_by(s, p) == s.subrange(0, b),
    decreases s.len(),
{
    if s.len() > 0 && p(s.last()) {
        let b = lemma_trim_end_subrange(s.drop_last(), p);
        assert(s.drop_last().subrange(0, b) =~= s.subrange(0, b));
        b
    } else {
        assert(s.subrange(0, s.len() as int) =~= s);
        s.len() as int
    }
}

/// A cleaned file name holds no character that file names may not hold.
pub proof fn lemma_cleaned_filename_chars(value: Seq<char>)
    ensures
        forall|i: int|
            0 <= i < cleaned_filename(value).len() ==> !is_forbidden_in_filename(
                #[trigger] cleaned_filename(value)[i],
            ),
{
    let m = value.map_values(|c: char| filename_char(c));
    assert forall|i: int| 0 <= i < m.len() implies !is_forbidden_in_filename(#[trigger] m[i]) by {
        assert(m[i] == filename_char(value[i]));
    }
    let (a1, b1) = lemma_trim_by_subrange(m, whitespace_pred());
    let t1 = trim(m);
    let (a2, b2) = lemma_trim_by_subrange(t1, dot_pred());
    let t2 = trim_by(t1, dot_pred());
    let (a3, b3) = lemma_trim_by_subrange(t2, whitespace_pred());
    assert forall|i: int| 0 <= i < cleaned_filename(value).len() implies !is_forbidden_in_filename(
        #[trigger] cleaned_filename(value)[i],
    ) by {
        assert(cleaned_filename(value)[i] == t2[a3 + i]);
        assert(t2[a3 + i] == t1[a2 + a3 + i]);
        assert(t1[a2 + a3 + i] == m[a1 + a2 + a3 + i]);
    }
}

/// Decimal notation uses only the digits.
pub proof fn lemma_decimal_digits(n: nat)
    ensures
        decimal(n).len() > 0,
        forall|i: int| 0 <= i < decimal(n).len() ==> 48 <= #[trigger] (decimal(n)[i] as u32) <= 57,
    decreases n,
{
    if n >= 10 {
        lemma_decimal_digits(n / 10);
        assert forall|i: int| 0 <= i < decimal(n).len() implies 48 <= #[trigger] (decimal(n)[i] as u32) <= 57 by {
            if i < decimal(n / 10).len() {
                assert(decimal(n)[i] == decimal(n / 10)[i]);
            }
        }
    }
}

} // verus!
