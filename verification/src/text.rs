//! Text operations on tensor keys. Every one is stated over `Seq<char>`.

use vstd::prelude::*;

verus! {

/// `String::push`: appends one character at the end.
pub assume_specification[ String::push ](s: &mut String, c: char)
    ensures
        final(s)@ == old(s)@.push(c),
;

/// Whether `pat` occurs in `s` at position `i`.
pub open spec fn occurs_at(s: Seq<char>, pat: Seq<char>, i: int) -> bool {
    0 <= i && i + pat.len() <= s.len() && s.subrange(i, i + pat.len()) == pat
}

/// Whether `pat` occurs anywhere in `s`.
pub open spec fn has_text(s: Seq<char>, pat: Seq<char>) -> bool {
    exists|i: int| occurs_at(s, pat, i)
}

/// Whether `s` begins with `pat`.
pub open spec fn has_prefix(s: Seq<char>, pat: Seq<char>) -> bool {
    occurs_at(s, pat, 0)
}

/// Whether `s` ends with `pat`.
pub open spec fn has_suffix(s: Seq<char>, pat: Seq<char>) -> bool {
    occurs_at(s, pat, s.len() - pat.len())
}

/// `s` without its first `pat.len()` characters.
pub open spec fn without_prefix(s: Seq<char>, pat: Seq<char>) -> Seq<char> {
    s.subrange(pat.len() as int, s.len() as int)
}

/// `s` without its last `pat.len()` characters.
pub open spec fn without_suffix(s: Seq<char>, pat: Seq<char>) -> Seq<char> {
    s.subrange(0, s.len() - pat.len())
}

/// `s` with every occurrence of `from` replaced by `to`: the leftmost occurrence is replaced and
/// the search goes on behind it.
pub open spec fn replaced(s: Seq<char>, from: Seq<char>, to: Seq<char>) -> Seq<char>
    recommends
        from.len() > 0,
    decreases s.len(),
{
    if s.len() == 0 {
        seq![]
    } else if from.len() > 0 && occurs_at(s, from, 0) {
        to + replaced(s.skip(from.len() as int), from, to)
    } else {
        seq![s[0]] + replaced(s.skip(1), from, to)
    }
}

/// The pieces of `s` between its separators `sep`: one more than there are separators.
pub open spec fn split_text(s: Seq<char>, sep: char) -> Seq<Seq<char>>
    decreases s.len(),
{
    if s.len() == 0 {
        seq![seq![]]
    } else {
        let head = split_text(s.drop_last(), sep);
        if s.last() == sep {
            head.push(seq![])
        } else {
            head.drop_last().push(head.last().push(s.last()))
        }
    }
}

/// The lower-case letter of an ASCII letter; every other character unchanged.
pub open spec fn ascii_lower(c: char) -> char {
    if 'A' <= c <= 'Z' {
        (c as u32 + 32) as char
    } else {
        c
    }
}

/// `s` with its ASCII letters in lower case.
pub open spec fn ascii_lowered(s: Seq<char>) -> Seq<char> {
    s.map_values(|c: char| ascii_lower(c))
}

/// Unicode `White_Space`.
pub open spec fn is_space(c: char) -> bool {
    let u = c as u32;
    ||| 0x9 <= u <= 0xd
    ||| u == 0x20
    ||| u == 0x85
    ||| u == 0xa0
    ||| u == 0x1680
    ||| 0x2000 <= u <= 0x200a
    ||| u == 0x2028
    ||| u == 0x2029
    ||| u == 0x202f
    ||| u == 0x205f
    ||| u == 0x3000
}

/// `s` without leading white space.
pub open spec fn trim_front(s: Seq<char>) -> Seq<char>
    decreases s.len(),
{
    if s.len() > 0 && is_space(s[0]) {
        trim_front(s.skip(1))
    } else {
        s
    }
}

/// `s` without trailing white space.
pub open spec fn trim_back(s: Seq<char>) -> Seq<char>
    decreases s.len(),
{
    if s.len() > 0 && is_space(s.last()) {
        trim_back(s.drop_last())
    } else {
        s
    }
}

/// `s` without white space at either end.
pub open spec fn trimmed(s: Seq<char>) -> Seq<char> {
    trim_back(trim_front(s))
}

/// Whether `c` is one of `0` to `9`.
pub open spec fn is_digit(c: char) -> bool {
    '0' <= c <= '9'
}

/// The number that a row of decimal digits stands for.
pub open spec fn digits_value(s: Seq<char>) -> nat
    decreases s.len(),
{
    if s.len() == 0 {
        0
    } else {
        digits_value(s.drop_last()) * 10 + (s.last() as u32 - '0' as u32) as nat
    }
}

/// `s` without one leading plus sign.
pub open spec fn unsigned_part(s: Seq<char>) -> Seq<char> {
    if s.len() > 0 && s[0] == '+' {
        s.skip(1)
    } else {
        s
    }
}

/// The machine word that `s` writes in decimal, with an optional plus sign in front. `None` for an
/// empty text, for anything that is no digit, and for a number above `usize::MAX`.
pub open spec fn parsed_usize(s: Seq<char>) -> Option<usize> {
    let d = unsigned_part(s);
    if d.len() > 0 && (forall|i: int| 0 <= i < d.len() ==> is_digit(#[trigger] d[i]))
        && digits_value(d) <= usize::MAX {
        Some(digits_value(d) as usize)
    } else {
        None
    }
}

/// The decimal digits of `n`, without leading zeros.
pub open spec fn decimal(n: nat) -> Seq<char>
    decreases n,
{
    let last = ('0' as u32 + n % 10) as char;
    if n < 10 {
        seq![last]
    } else {
        decimal(n / 10).push(last)
    }
}

/// `s` filled up with zeros in front to at least `width` characters.
pub open spec fn zero_padded(s: Seq<char>, width: nat) -> Seq<char> {
    if s.len() >= width {
        s
    } else {
        Seq::new((width - s.len()) as nat, |i: int| '0') + s
    }
}

/// Whether `a` comes before `b` in dictionary order, by code point.
pub open spec fn text_lt(a: Seq<char>, b: Seq<char>) -> bool
    decreases a.len(),
{
    if b.len() == 0 {
        false
    } else if a.len() == 0 {
        true
    } else if a[0] != b[0] {
        a[0] < b[0]
    } else {
        text_lt(a.skip(1), b.skip(1))
    }
}

/// The views of a list of texts.
pub open spec fn views(v: Seq<String>) -> Seq<Seq<char>> {
    v.map_values(|s: String| s@)
}

/// Decides [`occurs_at`].
fn matches_at(s: &Vec<char>, pat: &Vec<char>, i: usize) -> (r: bool)
    ensures
        r == occurs_at(s@, pat@, i as int),
{
    if pat.len() > s.len() || i > s.len() - pat.len() {
        return false;
    }
    let mut j: usize = 0;
    while j < pat.len()
        invariant
            j <= pat.len(),
            i + pat.len() <= s.len(),
            forall|k: int| 0 <= k < j ==> s@[i + k] == pat@[k],
        decreases pat.len() - j,
    {
        if s[i + j] != pat[j] {
            assert(s@.subrange(i as int, i + pat.len())[j as int] != pat@[j as int]);
            return false;
        }
        j += 1;
    }
    assert(s@.subrange(i as int, i + pat.len()) =~= pat@);
    true
}

/// The characters of `s`, in order.
pub fn chars_of(s: &str) -> (r: Vec<char>)
    ensures
        r@ == s@,
{
    let mut out: Vec<char> = Vec::new();
    for c in it: s.chars()
        invariant
            out@ == s@.take(it.index() as int),
            it.seq() == s@,
    {
        out.push(c);
        assert(s@.take(it.index() + 1) =~= s@.take(it.index() as int).push(s@[it.index() as int]));
    }
    assert(s@.take(s@.len() as int) =~= s@);
    out
}

/// The text that holds exactly the given characters.
pub fn text_of(v: &Vec<char>) -> (r: String)
    ensures
        r@ == v@,
{
    let mut out: String = String::new();
    let mut i: usize = 0;
    while i < v.len()
        invariant
            i <= v.len(),
            out@ == v@.take(i as int),
        decreases v.len() - i,
    {
        out.push(v[i]);
        assert(v@.take(i + 1) =~= v@.take(i as int).push(v@[i as int]));
        i += 1;
    }
    assert(v@.take(v@.len() as int) =~= v@);
    out
}

/// Whether two texts hold the same characters.
pub fn same_text(a: &str, b: &str) -> (r: bool)
    ensures
        r == (a@ == b@),
{
    let x = chars_of(a);
    let y = chars_of(b);
    if x.len() != y.len() {
        return false;
    }
    let mut i: usize = 0;
    while i < x.len()
        invariant
            i <= x.len(),
            x.len() == y.len(),
            x@ == a@,
            y@ == b@,
            forall|k: int| 0 <= k < i ==> x@[k] == y@[k],
        decreases x.len() - i,
    {
        if x[i] != y[i] {
            return false;
        }
        i += 1;
    }
    assert(x@ =~= y@);
    true
}

/// Decides [`has_text`].
pub fn contains_text(s: &str, pat: &str) -> (r: bool)
    ensures
        r == has_text(s@, pat@),
{
    let sv = chars_of(s);
    let pv = chars_of(pat);
    let mut i: usize = 0;
    while i < sv.len()
        invariant
            i <= sv.len(),
            sv@ == s@,
            pv@ == pat@,
            forall|k: int| 0 <= k < i ==> !occurs_at(s@, pat@, k),
        decreases sv.len() - i,
    {
        if matches_at(&sv, &pv, i) {
            return true;
        }
        i += 1;
    }
    matches_at(&sv, &pv, i)
}

/// Decides [`has_prefix`].
pub fn starts_with(s: &str, pat: &str) -> (r: bool)
    ensures
        r == has_prefix(s@, pat@),
{
    matches_at(&chars_of(s), &chars_of(pat), 0)
}

/// Decides [`has_suffix`].
pub fn ends_with(s: &str, pat: &str) -> (r: bool)
    ensures
        r == has_suffix(s@, pat@),
{
    let sv = chars_of(s);
    let pv = chars_of(pat);
    if pv.len() > sv.len() {
        return false;
    }
    matches_at(&sv, &pv, sv.len() - pv.len())
}

/// The characters `from` up to `to` of `v` as a text.
fn range_text(v: &Vec<char>, from: usize, to: usize) -> (r: String)
    requires
        from <= to <= v.len(),
    ensures
        r@ == v@.subrange(from as int, to as int),
{
    let mut out: String = String::new();
    let mut i: usize = from;
    while i < to
        invariant
            from <= i <= to <= v.len(),
            out@ == v@.subrange(from as int, i as int),
        decreases to - i,
    {
        out.push(v[i]);
        assert(v@.subrange(from as int, i + 1) =~= v@.subrange(from as int, i as int).push(v@[i as int]));
        i += 1;
    }
    out
}

/// `s` without `pat` at its beginning, where it begins so.
pub fn strip_prefix(s: &str, pat: &str) -> (r: Option<String>)
    ensures
        r is Some <==> has_prefix(s@, pat@),
        r matches Some(t) ==> t@ == without_prefix(s@, pat@),
{
    let sv = chars_of(s);
    let pv = chars_of(pat);
    if matches_at(&sv, &pv, 0) {
        Some(range_text(&sv, pv.len(), sv.len()))
    } else {
        None
    }
}

/// `s` without `pat` at its end, where it ends so.
pub fn strip_suffix(s: &str, pat: &str) -> (r: Option<String>)
    ensures
        r is Some <==> has_suffix(s@, pat@),
        r matches Some(t) ==> t@ == without_suffix(s@, pat@),
{
    let sv = chars_of(s);
    let pv = chars_of(pat);
    if pv.len() <= sv.len() && matches_at(&sv, &pv, sv.len() - pv.len()) {
        Some(range_text(&sv, 0, sv.len() - pv.len()))
    } else {
        None
    }
}

/// `s` with every occurrence of `from` replaced by `to`.
pub fn replace(s: &str, from: &str, to: &str) -> (r: String)
    requires
        from@.len() > 0,
    ensures
        r@ == replaced(s@, from@, to@),
{
    let sv = chars_of(s);
    let fv = chars_of(from);
    let tv = chars_of(to);
    let mut out: Vec<char> = Vec::new();
    let mut i: usize = 0;
    proof {
        assert(sv@.skip(0) =~= s@);
    }
    while i < sv.len()
        invariant
            i <= sv.len(),
            sv@ == s@,
            fv@ == from@,
            tv@ == to@,
            from@.len() > 0,
            out@ + replaced(s@.skip(i as int), from@, to@) =~= replaced(s@, from@, to@),
        decreases sv.len() - i,
    {
        let ghost rest = s@.skip(i as int);
        if matches_at(&sv, &fv, i) {
            proof {
                assert(rest.subrange(0, from@.len() as int) =~= s@.subrange(i as int, i + from@.len()));
                assert(rest.skip(from@.len() as int) =~= s@.skip(i + from@.len()));
            }
            let mut j: usize = 0;
            let ghost before = out@;
            while j < tv.len()
                invariant
                    j <= tv.len(),
                    out@ == before + tv@.take(j as int),
                decreases tv.len() - j,
            {
                out.push(tv[j]);
                assert(tv@.take(j + 1) =~= tv@.take(j as int).push(tv@[j as int]));
                j += 1;
            }
            assert(tv@.take(tv@.len() as int) =~= tv@);
            i += fv.len();
        } else {
            proof {
                if occurs_at(rest, from@, 0) {
                    assert(rest.subrange(0, from@.len() as int) =~= s@.subrange(i as int, i + from@.len()));
                }
                assert(rest.skip(1) =~= s@.skip(i + 1));
                assert(rest[0] == s@[i as int]);
            }
            out.push(sv[i]);
            i += 1;
        }
    }
    assert(s@.skip(i as int) =~= Seq::<char>::empty());
    text_of(&out)
}

/// The pieces of `s` between its separators.
pub fn split(s: &str, sep: char) -> (r: Vec<String>)
    ensures
        views(r@) == split_text(s@, sep),
{
    let sv = chars_of(s);
    let mut out: Vec<String> = Vec::new();
    let mut piece: Vec<char> = Vec::new();
    let mut i: usize = 0;
    assert(s@.take(0) =~= Seq::<char>::empty());
    assert(views(out@).push(piece@) =~= split_text(s@.take(0), sep));
    while i < sv.len()
        invariant
            i <= sv.len(),
            sv@ == s@,
            views(out@).push(piece@) == split_text(s@.take(i as int), sep),
        decreases sv.len() - i,
    {
        let ghost head = split_text(s@.take(i as int), sep);
        let ghost before = views(out@);
        proof {
            assert(s@.take(i + 1).drop_last() =~= s@.take(i as int));
            assert(s@.take(i + 1).last() == s@[i as int]);
            assert(head.drop_last() =~= before);
            assert(head.last() == piece@);
        }
        if sv[i] == sep {
            let ghost old_out = out@;
            out.push(text_of(&piece));
            proof {
                assert(views(out@) =~= before.push(piece@));
            }
            piece = Vec::new();
            assert(views(out@).push(piece@) =~= head.push(seq![]));
        } else {
            piece.push(sv[i]);
            assert(views(out@).push(piece@) =~= head.drop_last().push(head.last().push(s@[i as int])));
        }
        i += 1;
    }
    let ghost before = views(out@);
    out.push(text_of(&piece));
    assert(views(out@) =~= before.push(piece@));
    assert(s@.take(i as int) =~= s@);
    out
}

/// `s` with its ASCII letters in lower case.
pub fn to_ascii_lower(s: &str) -> (r: String)
    ensures
        r@ == ascii_lowered(s@),
{
    let sv = chars_of(s);
    let mut out: Vec<char> = Vec::new();
    let mut i: usize = 0;
    while i < sv.len()
        invariant
            i <= sv.len(),
            sv@ == s@,
            out@ == ascii_lowered(s@).take(i as int),
        decreases sv.len() - i,
    {
        let c = sv[i];
        let lower: char = if 'A' <= c && c <= 'Z' {
            (c as u8 + 32) as char
        } else {
            c
        };
        out.push(lower);
        assert(ascii_lowered(s@).take(i + 1) =~= ascii_lowered(s@).take(i as int).push(ascii_lower(s@[i as int])));
        i += 1;
    }
    assert(ascii_lowered(s@).take(i as int) =~= ascii_lowered(s@));
    text_of(&out)
}

/// Decides [`is_space`].
fn char_is_space(c: char) -> (r: bool)
    ensures
        r == is_space(c),
{
    let u: u32 = c as u32;
    (0x9 <= u && u <= 0xd) || u == 0x20 || u == 0x85 || u == 0xa0 || u == 0x1680
        || (0x2000 <= u && u <= 0x200a) || u == 0x2028 || u == 0x2029 || u == 0x202f
        || u == 0x205f || u == 0x3000
}

/// `s` without white space at either end.
pub fn trim(s: &str) -> (r: String)
    ensures
        r@ == trimmed(s@),
{
    let sv = chars_of(s);
    let mut from: usize = 0;
    assert(sv@.skip(0) =~= s@);
    while from < sv.len() && char_is_space(sv[from])
        invariant
            from <= sv.len(),
            sv@ == s@,
            trim_front(s@.skip(from as int)) == trim_front(s@),
        decreases sv.len() - from,
    {
        assert(s@.skip(from as int).skip(1) =~= s@.skip(from + 1));
        from += 1;
    }
    let mut to: usize = sv.len();
    let ghost front = s@.skip(from as int);
    assert(trim_front(s@) == front);
    assert(s@.subrange(from as int, to as int) =~= front);
    while to > from && char_is_space(sv[to - 1])
        invariant
            from <= to <= sv.len(),
            sv@ == s@,
            front == trim_front(s@),
            trim_back(s@.subrange(from as int, to as int)) == trim_back(front),
        decreases to,
    {
        let ghost cur = s@.subrange(from as int, to as int);
        assert(cur.drop_last() =~= s@.subrange(from as int, to - 1));
        assert(cur.last() == s@[to - 1]);
        to -= 1;
    }
    proof {
        let cur = s@.subrange(from as int, to as int);
        if cur.len() > 0 {
            assert(cur.last() == s@[to - 1]);
        }
    }
    range_text(&sv, from, to)
}

/// A shorter row of digits stands for no larger number.
proof fn lemma_digits_value_monotone(s: Seq<char>, k: int)
    requires
        0 <= k <= s.len(),
    ensures
        digits_value(s.take(k)) <= digits_value(s),
    decreases s.len() - k,
{
    if k == s.len() {
        assert(s.take(k) =~= s);
    } else {
        lemma_digits_value_monotone(s, k + 1);
        assert(s.take(k + 1).drop_last() =~= s.take(k));
    }
}

/// The machine word that `s` writes in decimal.
pub fn parse_usize(s: &str) -> (r: Option<usize>)
    ensures
        r == parsed_usize(s@),
{
    let sv = chars_of(s);
    let start: usize = if sv.len() > 0 && sv[0] == '+' {
        1
    } else {
        0
    };
    let ghost d = unsigned_part(s@);
    assert(d =~= s@.skip(start as int));
    if start == sv.len() {
        return None;
    }
    let mut value: usize = 0;
    let mut i: usize = start;
    assert(d.take(0) =~= Seq::<char>::empty());
    while i < sv.len()
        invariant
            start <= i <= sv.len(),
            sv@ == s@,
            d == s@.skip(start as int),
            d == unsigned_part(s@),
            d.len() > 0,
            forall|k: int| 0 <= k < i - start ==> is_digit(#[trigger] d[k]),
            value == digits_value(d.take(i - start)),
        decreases sv.len() - i,
    {
        let c = sv[i];
        assert(d[i - start] == c);
        if c < '0' || c > '9' {
            assert(!is_digit(d[i - start]));
            return None;
        }
        let digit: usize = (c as u32 - '0' as u32) as usize;
        proof {
            assert(d.take(i - start + 1).drop_last() =~= d.take(i - start));
            assert(d.take(i - start + 1).last() == c);
            assert(digits_value(d.take(i - start + 1)) == value * 10 + digit);
            lemma_digits_value_monotone(d, i - start + 1);
        }
        match value.checked_mul(10) {
            None => {
                return None;
            },
            Some(tens) => {
                match tens.checked_add(digit) {
                    None => {
                        return None;
                    },
                    Some(v) => {
                        value = v;
                    },
                }
            },
        }
        i += 1;
    }
    assert(d.take(i - start) =~= d);
    Some(value)
}

/// The decimal digits of `n`.
pub fn decimal_wide(n: u128) -> (r: String)
    ensures
        r@ == decimal(n as nat),
    decreases n,
{
    let last: char = (48u8 + (n % 10) as u8) as char;
    let mut out: String = if n < 10 {
        String::new()
    } else {
        decimal_wide(n / 10)
    };
    out.push(last);
    assert(out@ =~= decimal(n as nat));
    out
}

/// The decimal digits of `n`.
pub fn decimal_text(n: usize) -> (r: String)
    ensures
        r@ == decimal(n as nat),
{
    decimal_wide(n as u128)
}

/// The decimal digits of `n`, behind a minus sign where it is negative.
pub open spec fn signed(n: int) -> Seq<char> {
    if n < 0 {
        "-"@ + decimal((-n) as nat)
    } else {
        decimal(n as nat)
    }
}

/// The decimal digits of `n`, behind a minus sign where it is negative.
pub fn signed_text(n: i32) -> (r: String)
    ensures
        r@ == signed(n as int),
{
    if n < 0 {
        let size: i64 = -(n as i64);
        join2("-", decimal_wide(size as u128).as_str())
    } else {
        decimal_wide(n as u128)
    }
}

/// `s` filled up with zeros in front to at least `width` characters.
pub fn pad_zeros(s: &str, width: usize) -> (r: String)
    ensures
        r@ == zero_padded(s@, width as nat),
{
    let sv = chars_of(s);
    let mut out: String = String::new();
    if sv.len() < width {
        let missing: usize = width - sv.len();
        let mut i: usize = 0;
        while i < missing
            invariant
                i <= missing,
                out@ == Seq::new(i as nat, |k: int| '0'),
            decreases missing - i,
        {
            out.push('0');
            i += 1;
            assert(out@ =~= Seq::new(i as nat, |k: int| '0'));
        }
    }
    let ghost zeros = out@;
    let r = out.concat(s);
    assert(r@ =~= zero_padded(s@, width as nat));
    r
}

/// `a` followed by `b`.
pub fn join2(a: &str, b: &str) -> (r: String)
    ensures
        r@ == a@ + b@,
{
    a.to_owned().concat(b)
}

/// `a`, `b` and `c` in a row.
pub fn join3(a: &str, b: &str, c: &str) -> (r: String)
    ensures
        r@ == a@ + b@ + c@,
{
    a.to_owned().concat(b).concat(c)
}

/// Whether `s` is in the list.
pub fn list_contains(list: &Vec<String>, s: &str) -> (r: bool)
    ensures
        r == views(list@).contains(s@),
{
    let mut i: usize = 0;
    while i < list.len()
        invariant
            i <= list.len(),
            forall|k: int| 0 <= k < i ==> views(list@)[k] != s@,
        decreases list.len() - i,
    {
        if same_text(list[i].as_str(), s) {
            assert(views(list@)[i as int] == s@);
            return true;
        }
        i += 1;
    }
    false
}

/// Whether `a` comes before `b` in dictionary order.
pub fn text_less(a: &str, b: &str) -> (r: bool)
    ensures
        r == text_lt(a@, b@),
{
    let x = chars_of(a);
    let y = chars_of(b);
    let mut i: usize = 0;
    assert(a@.skip(0) =~= a@);
    assert(b@.skip(0) =~= b@);
    while i < x.len() && i < y.len() && x[i] == y[i]
        invariant
            i <= x.len(),
            i <= y.len(),
            x@ == a@,
            y@ == b@,
            text_lt(a@.skip(i as int), b@.skip(i as int)) == text_lt(a@, b@),
        decreases x.len() - i,
    {
        assert(a@.skip(i as int).skip(1) =~= a@.skip(i + 1));
        assert(b@.skip(i as int).skip(1) =~= b@.skip(i + 1));
        i += 1;
    }
    if i >= y.len() {
        false
    } else if i >= x.len() {
        true
    } else {
        x[i] < y[i]
    }
}

/// Whether the texts stand in strictly ascending dictionary order, so that none occurs twice.
pub open spec fn ascending(s: Seq<Seq<char>>) -> bool {
    forall|i: int, j: int| 0 <= i < j < s.len() ==> text_lt(#[trigger] s[i], #[trigger] s[j])
}

/// `s` with `p` put before the first text that does not come before it, unless that text is `p`.
pub open spec fn inserted(s: Seq<Seq<char>>, p: Seq<char>) -> Seq<Seq<char>>
    decreases s.len(),
{
    if s.len() == 0 {
        seq![p]
    } else if text_lt(s[0], p) {
        seq![s[0]] + inserted(s.skip(1), p)
    } else if s[0] == p {
        s
    } else {
        seq![p] + s
    }
}

/// The texts of `s` in ascending order, each one once.
pub open spec fn sorted_set(s: Seq<Seq<char>>) -> Seq<Seq<char>>
    decreases s.len(),
{
    if s.len() == 0 {
        seq![]
    } else {
        inserted(sorted_set(s.drop_last()), s.last())
    }
}

/// No text comes before itself.
pub proof fn lemma_text_lt_irreflexive(a: Seq<char>)
    ensures
        !text_lt(a, a),
    decreases a.len(),
{
    if a.len() > 0 {
        lemma_text_lt_irreflexive(a.skip(1));
    }
}

/// Of two different texts one comes before the other.
pub proof fn lemma_text_lt_total(a: Seq<char>, b: Seq<char>)
    ensures
        a == b || text_lt(a, b) || text_lt(b, a),
    decreases a.len(),
{
    if a.len() > 0 && b.len() > 0 && a[0] == b[0] {
        lemma_text_lt_total(a.skip(1), b.skip(1));
        if a.skip(1) == b.skip(1) {
            assert forall|i: int| 0 <= i < a.len() implies a[i] == b[i] by {
                if i > 0 {
                    assert(a[i] == a.skip(1)[i - 1]);
                    assert(b[i] == b.skip(1)[i - 1]);
                }
            }
            assert(a.len() == a.skip(1).len() + 1);
            assert(b.len() == b.skip(1).len() + 1);
            assert(a =~= b);
        }
    } else if a.len() == 0 && b.len() == 0 {
        assert(a =~= b);
    }
}

/// Dictionary order is transitive.
pub proof fn lemma_text_lt_transitive(a: Seq<char>, b: Seq<char>, c: Seq<char>)
    requires
        text_lt(a, b),
        text_lt(b, c),
    ensures
        text_lt(a, c),
    decreases a.len(),
{
    if a.len() > 0 && b.len() > 0 && c.len() > 0 && a[0] == b[0] && b[0] == c[0] {
        lemma_text_lt_transitive(a.skip(1), b.skip(1), c.skip(1));
    }
}

/// [`inserted`] keeps an ascending list ascending, and adds `p` and nothing else.
pub proof fn lemma_inserted(s: Seq<Seq<char>>, p: Seq<char>)
    requires
        ascending(s),
    ensures
        ascending(inserted(s, p)),
        inserted(s, p).contains(p),
        forall|q: Seq<char>| s.contains(q) ==> inserted(s, p).contains(q),
        forall|q: Seq<char>| inserted(s, p).contains(q) ==> s.contains(q) || q == p,
    decreases s.len(),
{
    let r = inserted(s, p);
    if s.len() == 0 {
        assert(r[0] == p);
    } else if text_lt(s[0], p) {
        let tail = s.skip(1);
        assert forall|i: int, j: int| 0 <= i < j < tail.len() implies text_lt(
            #[trigger] tail[i],
            #[trigger] tail[j],
        ) by {
            assert(tail[i] == s[i + 1]);
            assert(tail[j] == s[j + 1]);
        }
        lemma_inserted(tail, p);
        let rt = inserted(tail, p);
        assert(r =~= seq![s[0]] + rt);
        assert forall|i: int, j: int| 0 <= i < j < r.len() implies text_lt(
            #[trigger] r[i],
            #[trigger] r[j],
        ) by {
            assert(r[j] == rt[j - 1]);
            if i == 0 {
                assert(rt.contains(rt[j - 1]));
                if rt[j - 1] != p {
                    assert(tail.contains(rt[j - 1]));
                    let k = choose|k: int| 0 <= k < tail.len() && tail[k] == rt[j - 1];
                    assert(tail[k] == s[k + 1]);
                    assert(text_lt(s[0], s[k + 1]));
                }
            } else {
                assert(r[i] == rt[i - 1]);
            }
        }
        let k = choose|k: int| 0 <= k < rt.len() && rt[k] == p;
        assert(r[k + 1] == p);
        assert forall|q: Seq<char>| s.contains(q) implies r.contains(q) by {
            let k = choose|k: int| 0 <= k < s.len() && s[k] == q;
            if k == 0 {
                assert(r[0] == q);
            } else {
                assert(tail[k - 1] == q);
                assert(tail.contains(q));
                let m = choose|m: int| 0 <= m < rt.len() && rt[m] == q;
                assert(r[m + 1] == q);
            }
        }
        assert forall|q: Seq<char>| r.contains(q) implies s.contains(q) || q == p by {
            let k = choose|k: int| 0 <= k < r.len() && r[k] == q;
            if k == 0 {
                assert(s[0] == q);
            } else {
                assert(rt[k - 1] == q);
                assert(rt.contains(q));
                if q != p {
                    assert(tail.contains(q));
                    let m = choose|m: int| 0 <= m < tail.len() && tail[m] == q;
                    assert(s[m + 1] == q);
                }
            }
        }
    } else if s[0] == p {
        assert(r[0] == p);
    } else {
        lemma_text_lt_total(s[0], p);
        assert(r[0] == p);
        assert forall|i: int, j: int| 0 <= i < j < r.len() implies text_lt(
            #[trigger] r[i],
            #[trigger] r[j],
        ) by {
            assert(r[j] == s[j - 1]);
            if i == 0 {
                if j > 1 {
                    assert(text_lt(s[0], s[j - 1]));
                    lemma_text_lt_transitive(p, s[0], s[j - 1]);
                }
            } else {
                assert(r[i] == s[i - 1]);
            }
        }
        assert forall|q: Seq<char>| s.contains(q) implies r.contains(q) by {
            let k = choose|k: int| 0 <= k < s.len() && s[k] == q;
            assert(r[k + 1] == q);
        }
        assert forall|q: Seq<char>| r.contains(q) implies s.contains(q) || q == p by {
            let k = choose|k: int| 0 <= k < r.len() && r[k] == q;
            if k > 0 {
                assert(s[k - 1] == q);
            }
        }
    }
}

/// The list of [`sorted_set`] is ascending and holds exactly the texts of `s`.
pub proof fn law_sorted_set(s: Seq<Seq<char>>)
    ensures
        ascending(sorted_set(s)),
        forall|q: Seq<char>| sorted_set(s).contains(q) <==> s.contains(q),
    decreases s.len(),
{
    if s.len() > 0 {
        let head = s.drop_last();
        law_sorted_set(head);
        lemma_inserted(sorted_set(head), s.last());
        assert forall|q: Seq<char>| sorted_set(s).contains(q) <==> s.contains(q) by {
            if s.contains(q) {
                let k = choose|k: int| 0 <= k < s.len() && s[k] == q;
                if k < s.len() - 1 {
                    assert(head[k] == q);
                    assert(head.contains(q));
                }
            }
            if sorted_set(s).contains(q) {
                if q == s.last() {
                    assert(s[s.len() - 1] == q);
                } else {
                    assert(head.contains(q));
                    let k = choose|k: int| 0 <= k < head.len() && head[k] == q;
                    assert(s[k] == q);
                }
            }
        }
    }
}

/// Two ascending lists that hold the same texts are the same list.
pub proof fn lemma_same_texts(a: Seq<Seq<char>>, b: Seq<Seq<char>>)
    requires
        ascending(a),
        ascending(b),
        forall|q: Seq<char>| a.contains(q) <==> b.contains(q),
    ensures
        a == b,
    decreases a.len(),
{
    if a.len() == 0 {
        if b.len() > 0 {
            assert(b.contains(b[0]));
            assert(a.contains(b[0]));
        }
        assert(a =~= b);
    } else {
        let x = a.last();
        assert(a[a.len() - 1] == x);
        assert(a.contains(x));
        assert(b.contains(x));
        let j = choose|j: int| 0 <= j < b.len() && b[j] == x;
        let y = b.last();
        assert(b[b.len() - 1] == y);
        assert(b.contains(y));
        assert(a.contains(y));
        let i = choose|i: int| 0 <= i < a.len() && a[i] == y;
        if j < b.len() - 1 {
            assert(text_lt(b[j], b[b.len() - 1]));
            if i < a.len() - 1 {
                assert(text_lt(a[i], a[a.len() - 1]));
                lemma_text_lt_transitive(x, y, x);
            }
            lemma_text_lt_irreflexive(x);
        }
        assert(x == y);
        let (ha, hb) = (a.drop_last(), b.drop_last());
        assert forall|q: Seq<char>| ha.contains(q) <==> hb.contains(q) by {
            lemma_text_lt_irreflexive(x);
            if ha.contains(q) {
                let k = choose|k: int| 0 <= k < ha.len() && ha[k] == q;
                assert(a[k] == q && text_lt(a[k], a[a.len() - 1]));
                assert(a.contains(q));
                let m = choose|m: int| 0 <= m < b.len() && b[m] == q;
                assert(hb[m] == q);
            }
            if hb.contains(q) {
                let k = choose|k: int| 0 <= k < hb.len() && hb[k] == q;
                assert(b[k] == q && text_lt(b[k], b[b.len() - 1]));
                assert(b.contains(q));
                let m = choose|m: int| 0 <= m < a.len() && a[m] == q;
                assert(ha[m] == q);
            }
        }
        lemma_same_texts(ha, hb);
        assert(a =~= ha.push(x));
        assert(b =~= hb.push(x));
    }
}

/// Where all texts before `i` come before `p`, and the one at `i` does not, [`inserted`] puts `p`
/// at `i`.
pub proof fn lemma_inserted_at(s: Seq<Seq<char>>, p: Seq<char>, i: int)
    requires
        0 <= i <= s.len(),
        forall|k: int| 0 <= k < i ==> text_lt(#[trigger] s[k], p),
        i < s.len() ==> !text_lt(s[i], p),
    ensures
        inserted(s, p) == if i < s.len() && s[i] == p {
            s
        } else {
            s.insert(i, p)
        },
    decreases s.len(),
{
    if i == 0 {
        assert(inserted(s, p) =~= if s.len() > 0 && s[0] == p {
            s
        } else {
            s.insert(0, p)
        });
    } else {
        let tail = s.skip(1);
        assert forall|k: int| 0 <= k < i - 1 implies text_lt(#[trigger] tail[k], p) by {
            assert(tail[k] == s[k + 1]);
        }
        if i < s.len() {
            assert(tail[i - 1] == s[i]);
        }
        lemma_inserted_at(tail, p, i - 1);
        assert(text_lt(s[0], p));
        if i < s.len() && s[i] == p {
            assert(seq![s[0]] + tail =~= s);
        } else {
            assert(seq![s[0]] + tail.insert(i - 1, p) =~= s.insert(i, p));
        }
    }
}

/// The first position of `list` whose text does not come before `p`.
pub fn lower_bound(list: &Vec<String>, p: &str) -> (r: usize)
    ensures
        r <= list.len(),
        forall|k: int| 0 <= k < r ==> text_lt(#[trigger] views(list@)[k], p@),
        r < list.len() ==> !text_lt(views(list@)[r as int], p@),
{
    let mut i: usize = 0;
    while i < list.len() && text_less(list[i].as_str(), p)
        invariant
            i <= list.len(),
            forall|k: int| 0 <= k < i ==> text_lt(#[trigger] views(list@)[k], p@),
        decreases list.len() - i,
    {
        i += 1;
    }
    i
}

/// Puts `p` into the list as [`inserted`] says.
pub fn insert_text(list: &mut Vec<String>, p: String)
    ensures
        views(final(list)@) == inserted(views(old(list)@), p@),
{
    let i = lower_bound(list, p.as_str());
    proof {
        lemma_inserted_at(views(list@), p@, i as int);
    }
    if i < list.len() && same_text(list[i].as_str(), p.as_str()) {
        return ;
    }
    let ghost before = list@;
    list.insert(i, p);
    assert(views(list@) =~= views(before).insert(i as int, p@));
}

/// The texts of the list in ascending order, each one once.
pub fn sort_unique(list: &Vec<String>) -> (r: Vec<String>)
    ensures
        views(r@) == sorted_set(views(list@)),
{
    let mut out: Vec<String> = Vec::new();
    let mut i: usize = 0;
    assert(views(out@) =~= sorted_set(views(list@).take(0)));
    while i < list.len()
        invariant
            i <= list.len(),
            views(out@) == sorted_set(views(list@).take(i as int)),
        decreases list.len() - i,
    {
        insert_text(&mut out, list[i].clone());
        proof {
            let next = views(list@).take(i + 1);
            assert(next.drop_last() =~= views(list@).take(i as int));
            assert(next.last() == list@[i as int]@);
        }
        i += 1;
    }
    assert(views(list@).take(i as int) =~= views(list@));
    out
}

/// A text in which `from` does not occur is left as it is.
pub proof fn lemma_replaced_absent(s: Seq<char>, from: Seq<char>, to: Seq<char>)
    requires
        !has_text(s, from),
    ensures
        replaced(s, from, to) == s,
    decreases s.len(),
{
    if s.len() > 0 {
        assert(!occurs_at(s, from, 0));
        let tail = s.skip(1);
        assert(!has_text(tail, from)) by {
            if has_text(tail, from) {
                let i = choose|i: int| occurs_at(tail, from, i);
                assert(tail.subrange(i, i + from.len()) =~= s.subrange(i + 1, i + 1 + from.len()));
                assert(occurs_at(s, from, i + 1));
            }
        }
        lemma_replaced_absent(tail, from, to);
        assert(seq![s[0]] + tail =~= s);
    } else {
        assert(replaced(s, from, to) =~= s);
    }
}

/// Splitting a text at a separator inside it splits what stands before it and what stands behind.
pub proof fn lemma_split_join(a: Seq<char>, sep: char, b: Seq<char>)
    ensures
        split_text(a + seq![sep] + b, sep) == split_text(a, sep) + split_text(b, sep),
    decreases b.len(),
{
    let whole = a + seq![sep] + b;
    lemma_split_nonempty(a, sep);
    lemma_split_nonempty(b, sep);
    if b.len() == 0 {
        assert(whole.drop_last() =~= a);
        assert(whole.last() == sep);
        assert(split_text(b, sep) =~= seq![Seq::<char>::empty()]);
        assert(split_text(a, sep).push(Seq::<char>::empty()) =~= split_text(a, sep) + split_text(
            b,
            sep,
        ));
    } else {
        lemma_split_join(a, sep, b.drop_last());
        lemma_split_nonempty(b.drop_last(), sep);
        let ha = split_text(a, sep);
        let hb = split_text(b.drop_last(), sep);
        assert(whole.drop_last() =~= a + seq![sep] + b.drop_last());
        assert(whole.last() == b.last());
        assert((ha + hb).last() == hb.last());
        assert((ha + hb).drop_last() =~= ha + hb.drop_last());
        if b.last() == sep {
            assert((ha + hb).push(Seq::<char>::empty()) =~= ha + hb.push(Seq::<char>::empty()));
        } else {
            let piece = hb.last().push(b.last());
            assert((ha + hb).drop_last().push(piece) =~= ha + hb.drop_last().push(piece));
        }
    }
}

/// Splitting gives at least one piece.
pub proof fn lemma_split_nonempty(s: Seq<char>, sep: char)
    ensures
        split_text(s, sep).len() > 0,
    decreases s.len(),
{
    if s.len() > 0 {
        lemma_split_nonempty(s.drop_last(), sep);
    }
}

/// A text without the separator is one piece.
pub proof fn lemma_split_single(s: Seq<char>, sep: char)
    requires
        !s.contains(sep),
    ensures
        split_text(s, sep) == seq![s],
    decreases s.len(),
{
    if s.len() == 0 {
        assert(s =~= Seq::<char>::empty());
    } else {
        assert(s[s.len() - 1] == s.last());
        assert(!s.drop_last().contains(sep)) by {
            if s.drop_last().contains(sep) {
                let k = choose|k: int| 0 <= k < s.drop_last().len() && s.drop_last()[k] == sep;
                assert(s[k] == sep);
            }
        }
        lemma_split_single(s.drop_last(), sep);
        let head = split_text(s.drop_last(), sep);
        assert(head.drop_last().push(head.last().push(s.last())) =~= seq![s]) by {
            assert(s.drop_last().push(s.last()) =~= s);
        }
    }
}

/// What [`decimal`] writes are digits, and they stand for the number.
pub proof fn lemma_decimal(n: nat)
    ensures
        decimal(n).len() > 0,
        forall|i: int| 0 <= i < decimal(n).len() ==> is_digit(#[trigger] decimal(n)[i]),
        digits_value(decimal(n)) == n,
    decreases n,
{
    let d = decimal(n);
    let last = ('0' as u32 + n % 10) as char;
    assert(48 <= '0' as u32 + n % 10 <= 57);
    assert(is_digit(last));
    if n < 10 {
        assert(d.drop_last() =~= Seq::<char>::empty());
        assert(digits_value(d.drop_last()) == 0);
    } else {
        lemma_decimal(n / 10);
        assert(d.drop_last() =~= decimal(n / 10));
        assert forall|i: int| 0 <= i < d.len() implies is_digit(#[trigger] d[i]) by {
            if i < d.len() - 1 {
                assert(d[i] == decimal(n / 10)[i]);
            }
        }
    }
    assert(d.last() == last);
}

/// Reading back a machine word that was written in decimal gives the word.
pub proof fn law_decimal_reads_back(n: usize)
    ensures
        parsed_usize(decimal(n as nat)) == Some(n),
{
    lemma_decimal(n as nat);
    let d = decimal(n as nat);
    assert(is_digit(d[0]));
    assert(unsigned_part(d) == d);
}

/// The parts in a row, with `sep` between them.
pub open spec fn joined(parts: Seq<Seq<char>>, sep: Seq<char>) -> Seq<char>
    decreases parts.len(),
{
    if parts.len() == 0 {
        seq![]
    } else if parts.len() == 1 {
        parts[0]
    } else {
        joined(parts.drop_last(), sep) + sep + parts.last()
    }
}

/// The parts in a row, with `sep` between them.
pub fn join_with(parts: &Vec<String>, sep: &str) -> (r: String)
    ensures
        r@ == joined(views(parts@), sep@),
{
    let mut out: String = String::new();
    let mut i: usize = 0;
    assert(out@ =~= joined(views(parts@).take(0), sep@));
    while i < parts.len()
        invariant
            i <= parts.len(),
            out@ == joined(views(parts@).take(i as int), sep@),
        decreases parts.len() - i,
    {
        proof {
            let next = views(parts@).take(i + 1);
            assert(next.drop_last() =~= views(parts@).take(i as int));
            assert(next.last() == parts@[i as int]@);
        }
        if i == 0 {
            out = parts[i].clone();
        } else {
            out = out.concat(sep).concat(parts[i].as_str());
        }
        i += 1;
    }
    assert(views(parts@).take(i as int) =~= views(parts@));
    out
}

/// Splitting what was joined gives the parts back, where there is one at least and none holds the
/// separator.
pub proof fn law_split_undoes_join(parts: Seq<Seq<char>>, sep: char)
    requires
        parts.len() > 0,
        forall|i: int| 0 <= i < parts.len() ==> !(#[trigger] parts[i]).contains(sep),
    ensures
        split_text(joined(parts, seq![sep]), sep) == parts,
    decreases parts.len(),
{
    if parts.len() == 1 {
        lemma_split_single(parts[0], sep);
        assert(parts =~= seq![parts[0]]);
    } else {
        let head = parts.drop_last();
        assert forall|i: int| 0 <= i < head.len() implies !(#[trigger] head[i]).contains(sep) by {
            assert(head[i] == parts[i]);
        }
        law_split_undoes_join(head, sep);
        assert(parts[parts.len() - 1] == parts.last());
        lemma_split_single(parts.last(), sep);
        lemma_split_join(joined(head, seq![sep]), sep, parts.last());
        assert(head + seq![parts.last()] =~= parts);
    }
}

} // verus!
