//! Verified helpers over strings. Every contract speaks of the `Seq<char>`
//! view of its arguments and result.
use vstd::prelude::*;

verus! {

/// `true` when `p` is an initial segment of `s`.
pub open spec fn is_prefix(p: Seq<char>, s: Seq<char>) -> bool {
    p.len() <= s.len() && s.subrange(0, p.len() as int) == p
}

/// `true` when `n` occurs in `s` starting at position `at`.
pub open spec fn occurs_at(n: Seq<char>, s: Seq<char>, at: int) -> bool {
    0 <= at && at + n.len() <= s.len() && s.subrange(at, at + n.len()) == n
}

/// `true` when `n` occurs somewhere in `s`.
pub open spec fn occurs_in(n: Seq<char>, s: Seq<char>) -> bool {
    exists|at: int| occurs_at(n, s, at)
}

/// Position of the first `c` in `s`, or `s.len()` when there is none.
pub open spec fn index_of(s: Seq<char>, c: char) -> int
    decreases s.len(),
{
    if s.len() == 0 {
        0
    } else if s[0] == c {
        0
    } else {
        1 + index_of(s.drop_first(), c)
    }
}

/// `index_of` is the least position that holds `c`.
pub proof fn lemma_index_of(s: Seq<char>, c: char)
    ensures
        0 <= index_of(s, c) <= s.len(),
        forall|j: int| 0 <= j < index_of(s, c) ==> s[j] != c,
        index_of(s, c) < s.len() ==> s[index_of(s, c)] == c,
    decreases s.len(),
{
    if s.len() != 0 && s[0] != c {
        let t = s.drop_first();
        lemma_index_of(t, c);
        assert forall|j: int| 0 <= j < index_of(s, c) implies s[j] != c by {
            if j > 0 {
                assert(s[j] == t[j - 1]);
            }
        }
    }
}

/// Any position with the properties of `index_of` is `index_of`.
pub proof fn lemma_index_of_unique(s: Seq<char>, c: char, i: int)
    requires
        0 <= i <= s.len(),
        forall|j: int| 0 <= j < i ==> s[j] != c,
        i < s.len() ==> s[i] == c,
    ensures
        index_of(s, c) == i,
{
    lemma_index_of(s, c);
    let k = index_of(s, c);
    if k < i {
        assert(s[k] != c);
    } else if i < k {
        assert(s[i] != c);
    }
}

/// The characters of `s`, in order.
pub fn chars_of(s: &str) -> (v: Vec<char>)
    ensures
        v@ == s@,
{
    let mut v: Vec<char> = Vec::new();
    for c in it: s.chars()
        invariant
            v@ == it.seq().subrange(0, it.index() as int),
            it.seq() == s@,
    {
        v.push(c);
    }
    v
}

/// Equality of two string slices.
pub fn same_text(a: &str, b: &str) -> (r: bool)
    ensures
        r == (a@ == b@),
{
    let x = a.to_owned();
    let y = b.to_owned();
    x == y
}

/// The part of `s` from character `from` up to, not including, character `to`.
pub(crate) fn slice_of(s: &str, from: usize, to: usize) -> (r: String)
    requires
        from <= to <= s@.len(),
    ensures
        r@ == s@.subrange(from as int, to as int),
{
    s.substring_char(from, to).to_owned()
}

/// First position at or after `from` that holds `c`, or the length.
pub(crate) fn find_char(s: &Vec<char>, c: char, from: usize) -> (i: usize)
    requires
        from <= s@.len(),
    ensures
        from <= i <= s@.len(),
        i == from + index_of(s@.subrange(from as int, s@.len() as int), c),
{
    let mut i: usize = from;
    while i < s.len() && s[i] != c
        invariant
            from <= i <= s@.len(),
            forall|j: int| from <= j < i ==> s@[j] != c,
        decreases s@.len() - i,
    {
        i = i + 1;
    }
    proof {
        let t = s@.subrange(from as int, s@.len() as int);
        assert forall|j: int| 0 <= j < i - from implies t[j] != c by {
            assert(t[j] == s@[from + j]);
        }
        lemma_index_of_unique(t, c, i - from);
    }
    i
}

/// The characters of `v` from `from` up to, not including, `to`.
pub(crate) fn sub_chars(v: &Vec<char>, from: usize, to: usize) -> (r: Vec<char>)
    requires
        from <= to <= v@.len(),
    ensures
        r@ == v@.subrange(from as int, to as int),
{
    let mut r: Vec<char> = Vec::new();
    let mut i: usize = from;
    while i < to
        invariant
            from <= i <= to <= v@.len(),
            r@ == v@.subrange(from as int, i as int),
        decreases to - i,
    {
        r.push(v[i]);
        i = i + 1;
    }
    r
}

/// Whether the characters `s` begin with `p`.
pub(crate) fn begins_with(s: &Vec<char>, p: &Vec<char>) -> (r: bool)
    ensures
        r == is_prefix(p@, s@),
{
    matches_at(s, p, 0)
}

/// Whether `n` occurs in `s` at position `at`.
pub(crate) fn matches_at(s: &Vec<char>, n: &Vec<char>, at: usize) -> (r: bool)
    ensures
        r == occurs_at(n@, s@, at as int),
{
    if n.len() > s.len() || at > s.len() - n.len() {
        return false;
    }
    let mut k: usize = 0;
    while k < n.len()
        invariant
            k <= n@.len(),
            at + n@.len() <= s@.len() <= usize::MAX,
            forall|j: int| 0 <= j < k ==> s@[at + j] == n@[j],
        decreases n@.len() - k,
    {
        if s[at + k] != n[k] {
            proof {
                let w = s@.subrange(at as int, at + n@.len());
                assert(w[k as int] == s@[at + k]);
            }
            return false;
        }
        k = k + 1;
    }
    proof {
        let w = s@.subrange(at as int, at + n@.len());
        assert(w =~= n@);
    }
    true
}

/// Whether `s` starts with `p`.
pub fn starts_with(s: &str, p: &str) -> (r: bool)
    ensures
        r == is_prefix(p@, s@),
{
    let sv = chars_of(s);
    let pv = chars_of(p);
    begins_with(&sv, &pv)
}

/// Whether `n` occurs somewhere in `s`.
pub fn contains_text(s: &str, n: &str) -> (r: bool)
    ensures
        r == occurs_in(n@, s@),
{
    let sv = chars_of(s);
    let nv = chars_of(n);
    let mut at: usize = 0;
    while at < sv.len()
        invariant
            at <= sv@.len(),
            sv@ == s@,
            nv@ == n@,
            forall|j: int| 0 <= j < at ==> !occurs_at(n@, s@, j),
        decreases sv@.len() - at,
    {
        if matches_at(&sv, &nv, at) {
            return true;
        }
        at = at + 1;
    }
    matches_at(&sv, &nv, at)
}


/// Strict lexicographic order on character sequences, by code point: `a`
/// is a proper prefix of `b`, or the two differ first at a position where
/// `a` holds the smaller character.
pub open spec fn text_less(a: Seq<char>, b: Seq<char>) -> bool {
    exists|k: int| differ_at(a, b, k)
}

/// `a` and `b` agree before position `k`, and there `a` ends or holds the
/// smaller character.
pub open spec fn differ_at(a: Seq<char>, b: Seq<char>, k: int) -> bool {
    &&& 0 <= k <= a.len()
    &&& k < b.len()
    &&& a.subrange(0, k) == b.subrange(0, k)
    &&& (k < a.len() ==> (a[k] as int) < (b[k] as int))
}

/// Two sequences that agree before `k` and differ at `k` are ordered by
/// the characters at `k` alone.
pub proof fn lemma_order_at(a: Seq<char>, b: Seq<char>, k: int)
    requires
        0 <= k <= a.len(),
        0 <= k <= b.len(),
        a.subrange(0, k) == b.subrange(0, k),
        k < a.len() && k < b.len() ==> a[k] != b[k],
    ensures
        text_less(a, b) <==> (k < b.len() && (k < a.len() ==> (a[k] as int) < (b[k] as int))),
        a == b <==> (k == a.len() && k == b.len()),
{
    let rhs = k < b.len() && (k < a.len() ==> (a[k] as int) < (b[k] as int));
    if rhs {
        assert(differ_at(a, b, k));
    }
    if text_less(a, b) {
        let j = choose|j: int| differ_at(a, b, j);
        assert(differ_at(a, b, j));
        if j < k {
            assert(a.subrange(0, k)[j] == a[j]);
            assert(b.subrange(0, k)[j] == b[j]);
            assert(a[j] == b[j]);
            assert(false);
        } else if j > k {
            assert(a.subrange(0, j)[k] == a[k]);
            assert(b.subrange(0, j)[k] == b[k]);
            assert(false);
        }
        assert(rhs);
    }
    if k == a.len() && k == b.len() {
        assert(a =~= a.subrange(0, k));
        assert(b =~= b.subrange(0, k));
    }
    if a == b {
        if k < a.len() {
            assert(false);
        }
    }
}

/// The code point of `c`.
pub fn code_point(c: char) -> (n: u32)
    ensures
        n as int == c as int,
{
    c as u32
}

/// Three-way comparison of two texts: `-1` when `a` comes first, `0` when
/// they are equal, `1` when `b` comes first.
pub fn order_of(a: &str, b: &str) -> (r: i8)
    ensures
        r == -1 <==> text_less(a@, b@),
        r == 0 <==> a@ == b@,
        r == 1 <==> text_less(b@, a@),
        -1 <= r <= 1,
{
    let av = chars_of(a);
    let bv = chars_of(b);
    let mut k: usize = 0;
    while k < av.len() && k < bv.len() && av[k] == bv[k]
        invariant
            k <= av@.len(),
            k <= bv@.len(),
            av@.subrange(0, k as int) == bv@.subrange(0, k as int),
        decreases av@.len() - k,
    {
        proof {
            assert(av@.subrange(0, k + 1) =~= av@.subrange(0, k as int).push(av@[k as int]));
            assert(bv@.subrange(0, k + 1) =~= bv@.subrange(0, k as int).push(bv@[k as int]));
        }
        k = k + 1;
    }
    proof {
        lemma_order_at(av@, bv@, k as int);
        lemma_order_at(bv@, av@, k as int);
    }
    if k == av.len() {
        if k == bv.len() {
            0
        } else {
            -1
        }
    } else if k == bv.len() {
        1
    } else {
        if code_point(av[k]) < code_point(bv[k]) {
            -1
        } else {
            1
        }
    }
}


/// The views of a sequence of strings.
pub open spec fn texts(v: Seq<String>) -> Seq<Seq<char>> {
    Seq::new(v.len(), |i: int| v[i]@)
}

/// View of an optional string.
pub open spec fn opt_text(o: Option<String>) -> Option<Seq<char>> {
    match o {
        Some(s) => Some(s@),
        None => None,
    }
}

/// A copy of a list of strings.
pub fn copy_texts(v: &Vec<String>) -> (r: Vec<String>)
    ensures
        texts(r@) == texts(v@),
{
    let mut r: Vec<String> = Vec::new();
    let mut i: usize = 0;
    while i < v.len()
        invariant
            i <= v@.len(),
            r@.len() == i,
            forall|j: int| 0 <= j < i ==> r@[j]@ == v@[j]@,
        decreases v@.len() - i,
    {
        r.push(v[i].clone());
        i = i + 1;
    }
    assert(texts(r@) =~= texts(v@));
    r
}

/// A copy of an optional string.
pub fn copy_opt(o: &Option<String>) -> (r: Option<String>)
    ensures
        opt_text(r) == opt_text(*o),
{
    match o {
        Some(s) => Some(s.clone()),
        None => None,
    }
}

/// Whether some element of `v` reads `s`.
pub fn holds_text(v: &Vec<String>, s: &str) -> (r: bool)
    ensures
        r == texts(v@).contains(s@),
{
    let mut i: usize = 0;
    while i < v.len()
        invariant
            i <= v@.len(),
            forall|j: int| 0 <= j < i ==> texts(v@)[j] != s@,
        decreases v@.len() - i,
    {
        if same_text(v[i].as_str(), s) {
            assert(texts(v@)[i as int] == s@);
            return true;
        }
        i = i + 1;
    }
    false
}

/// Whether two optional strings read the same.
pub fn same_opt(a: &Option<String>, b: &Option<String>) -> (r: bool)
    ensures
        r == (opt_text(*a) == opt_text(*b)),
{
    match (a, b) {
        (None, None) => true,
        (Some(x), Some(y)) => same_text(x.as_str(), y.as_str()),
        _ => false,
    }
}

/// The texts of `parts` in a row, with `sep` between neighbours.
pub open spec fn joined(parts: Seq<Seq<char>>, sep: Seq<char>) -> Seq<char>
    decreases parts.len(),
{
    if parts.len() == 0 {
        Seq::empty()
    } else if parts.len() == 1 {
        parts[0]
    } else {
        joined(parts.drop_last(), sep) + sep + parts.last()
    }
}

/// Joins `parts` with `sep` between neighbours.
pub fn join(parts: &Vec<String>, sep: &str) -> (r: String)
    ensures
        r@ == joined(texts(parts@), sep@),
{
    let mut r = String::new();
    let mut i: usize = 0;
    let ghost all = texts(parts@);
    proof {
        assert(all.subrange(0, 0) =~= Seq::<Seq<char>>::empty());
    }
    while i < parts.len()
        invariant
            i <= parts@.len(),
            all == texts(parts@),
            r@ == joined(all.subrange(0, i as int), sep@),
        decreases parts@.len() - i,
    {
        proof {
            let next = all.subrange(0, i + 1);
            assert(next.drop_last() =~= all.subrange(0, i as int));
            assert(next.last() == parts@[i as int]@);
            if i == 0 {
                assert(Seq::<char>::empty() + parts@[0]@ =~= parts@[0]@);
            }
        }
        if i > 0 {
            r.append(sep);
        }
        r.append(parts[i].as_str());
        i = i + 1;
    }
    proof {
        assert(all.subrange(0, all.len() as int) =~= all);
    }
    r
}

/// What `str::to_lowercase` makes of a text.
pub uninterp spec fn lowercase_of(s: Seq<char>) -> Seq<char>;

/// Whether every character of a text is an ASCII character.
pub open spec fn is_ascii_text(s: Seq<char>) -> bool {
    forall|i: int| 0 <= i < s.len() ==> (#[trigger] s[i]) as int <= 127
}

/// Whether `r` is `s` with each capital letter A to Z replaced by its
/// small letter, all else as it is.
pub open spec fn ascii_lowered(s: Seq<char>, r: Seq<char>) -> bool {
    r.len() == s.len() && forall|i: int|
        0 <= i < s.len() ==> (#[trigger] r[i]) as int == ascii_lower(s[i])
}

/// `str::to_lowercase`: the lower-case form of `s` by the Unicode tables
/// of the standard library. On a text of ASCII characters alone that is
/// the text with each capital letter A to Z replaced by its small letter.
#[verifier::external_body]
pub(crate) fn to_lower(s: &str) -> (r: String)
    ensures
        r@ == lowercase_of(s@),
        is_ascii_text(s@) ==> ascii_lowered(s@, r@),
{
    s.to_lowercase()
}

/// The lower-case form of one ASCII character.
pub open spec fn ascii_lower_char(c: char) -> char {
    if 65 <= c as int <= 90 {
        ((c as int + 32) as u8) as char
    } else {
        c
    }
}

/// The lower-case form of a text: for a text of ASCII characters alone,
/// each capital letter A to Z replaced by its small letter; for any other
/// text, what the standard library makes of it.
pub open spec fn lowered(s: Seq<char>) -> Seq<char> {
    if is_ascii_text(s) {
        Seq::new(s.len(), |i: int| ascii_lower_char(s[i]))
    } else {
        lowercase_of(s)
    }
}

/// The lower-case form of a text.
pub fn lower(s: &str) -> (r: String)
    ensures
        r@ == lowered(s@),
{
    let r = to_lower(s);
    proof {
        if is_ascii_text(s@) {
            assert forall|i: int| 0 <= i < s@.len() implies r@[i] == ascii_lower_char(s@[i]) by {
                assert(r@[i] as int == ascii_lower(s@[i]));
                assert(ascii_lower_char(s@[i]) as int == ascii_lower(s@[i]));
            }
            assert(r@ =~= lowered(s@));
        }
    }
    r
}

/// White space as `char::is_whitespace` has it.
pub open spec fn is_space(c: char) -> bool {
    let n = c as int;
    ||| 9 <= n <= 13
    ||| n == 32
    ||| n == 0x85
    ||| n == 0xA0
    ||| n == 0x1680
    ||| 0x2000 <= n <= 0x200A
    ||| n == 0x2028
    ||| n == 0x2029
    ||| n == 0x202F
    ||| n == 0x205F
    ||| n == 0x3000
}

/// `s` without the white space at its start.
pub open spec fn trim_start(s: Seq<char>) -> Seq<char>
    decreases s.len(),
{
    if s.len() > 0 && is_space(s[0]) {
        trim_start(s.drop_first())
    } else {
        s
    }
}

/// `s` without the white space at its end.
pub open spec fn trim_end(s: Seq<char>) -> Seq<char>
    decreases s.len(),
{
    if s.len() > 0 && is_space(s.last()) {
        trim_end(s.drop_last())
    } else {
        s
    }
}

/// `s` without the white space at its start and its end.
pub open spec fn trimmed(s: Seq<char>) -> Seq<char> {
    trim_end(trim_start(s))
}

/// Cutting the white space at the start leaves the rest from the first
/// character that is none.
pub proof fn lemma_trim_start(s: Seq<char>, a: int)
    requires
        0 <= a <= s.len(),
        forall|j: int| 0 <= j < a ==> is_space(s[j]),
        a < s.len() ==> !is_space(s[a]),
    ensures
        trim_start(s) == s.subrange(a, s.len() as int),
    decreases a,
{
    if a == 0 {
        assert(s.subrange(0, s.len() as int) =~= s);
    } else {
        let t = s.drop_first();
        assert forall|j: int| 0 <= j < a - 1 implies is_space(t[j]) by {
            assert(t[j] == s[j + 1]);
        }
        lemma_trim_start(t, a - 1);
        assert(t.subrange(a - 1, t.len() as int) =~= s.subrange(a, s.len() as int));
    }
}

/// Cutting the white space at the end leaves the part up to the last
/// character that is none.
pub proof fn lemma_trim_end(s: Seq<char>, b: int)
    requires
        0 <= b <= s.len(),
        forall|j: int| b <= j < s.len() ==> is_space(s[j]),
        b > 0 ==> !is_space(s[b - 1]),
    ensures
        trim_end(s) == s.subrange(0, b),
    decreases s.len() - b,
{
    if b == s.len() {
        assert(s.subrange(0, s.len() as int) =~= s);
    } else {
        let t = s.drop_last();
        lemma_trim_end(t, b);
        assert(t.subrange(0, b) =~= s.subrange(0, b));
    }
}

fn space_char(c: char) -> (r: bool)
    ensures
        r == is_space(c),
{
    let n: u32 = c as u32;
    (9 <= n && n <= 13) || n == 32 || n == 0x85 || n == 0xA0 || n == 0x1680 || (0x2000 <= n && n
        <= 0x200A) || n == 0x2028 || n == 0x2029 || n == 0x202F || n == 0x205F || n == 0x3000
}

/// The characters of `s` without the white space around them.
pub fn trim_chars(s: &Vec<char>) -> (r: Vec<char>)
    ensures
        r@ == trimmed(s@),
{
    let n = s.len();
    let mut a: usize = 0;
    while a < n && space_char(s[a])
        invariant
            a <= n,
            n == s@.len(),
            forall|j: int| 0 <= j < a ==> is_space(s@[j]),
        decreases n - a,
    {
        a = a + 1;
    }
    let mut b: usize = n;
    while b > a && space_char(s[b - 1])
        invariant
            a <= b <= n,
            n == s@.len(),
            forall|j: int| b <= j < n ==> is_space(s@[j]),
        decreases b,
    {
        b = b - 1;
    }
    proof {
        lemma_trim_start(s@, a as int);
        let t = s@.subrange(a as int, n as int);
        assert forall|j: int| b - a <= j < t.len() implies is_space(t[j]) by {
            assert(t[j] == s@[a + j]);
        }
        if b > a {
            assert(t[b - a - 1] == s@[b - 1]);
        } else if a < n {
            assert(!is_space(s@[a as int]));
        }
        lemma_trim_end(t, b - a);
        assert(t.subrange(0, b - a) =~= s@.subrange(a as int, b as int));
    }
    sub_chars(s, a, b)
}

/// The lower-case form of an ASCII letter; any other character itself.
pub open spec fn ascii_lower(c: char) -> int {
    if 65 <= c as int <= 90 {
        c as int + 32
    } else {
        c as int
    }
}

/// Whether two texts are equal but for the case of ASCII letters.
pub open spec fn same_ignoring_case(a: Seq<char>, b: Seq<char>) -> bool {
    a.len() == b.len() && forall|i: int| 0 <= i < a.len() ==> ascii_lower(a[i]) == ascii_lower(b[i])
}

fn lower_code(c: char) -> (n: u32)
    ensures
        n as int == ascii_lower(c),
{
    let n: u32 = c as u32;
    if 65 <= n && n <= 90 {
        n + 32
    } else {
        n
    }
}

/// Compares two texts without regard to the case of ASCII letters.
pub fn equal_ignoring_case(a: &Vec<char>, b: &Vec<char>) -> (r: bool)
    ensures
        r == same_ignoring_case(a@, b@),
{
    if a.len() != b.len() {
        return false;
    }
    let mut i: usize = 0;
    while i < a.len()
        invariant
            i <= a@.len(),
            a@.len() == b@.len(),
            forall|j: int| 0 <= j < i ==> ascii_lower(a@[j]) == ascii_lower(b@[j]),
        decreases a@.len() - i,
    {
        if lower_code(a[i]) != lower_code(b[i]) {
            return false;
        }
        i = i + 1;
    }
    true
}

/// Whether every character is a decimal digit.
pub open spec fn all_digits(s: Seq<char>) -> bool {
    forall|i: int| 0 <= i < s.len() ==> 48 <= (#[trigger] s[i]) as int <= 57
}

/// The number that a sequence of decimal digits writes.
pub open spec fn decimal_value(s: Seq<char>) -> nat
    decreases s.len(),
{
    if s.len() == 0 {
        0
    } else {
        (decimal_value(s.drop_last()) * 10 + (s.last() as int - 48)) as nat
    }
}

/// What `usize::from_str` makes of a text: after an optional `+`, one or
/// more decimal digits that write a number within `usize`.
pub open spec fn parsed_usize(s: Seq<char>) -> Option<usize> {
    let digits = if s.len() > 0 && s[0] == '+' {
        s.drop_first()
    } else {
        s
    };
    if digits.len() > 0 && all_digits(digits) && decimal_value(digits) <= usize::MAX {
        Some(decimal_value(digits) as usize)
    } else {
        None
    }
}

/// A number written with more digits is not smaller.
pub proof fn lemma_decimal_grows(s: Seq<char>, n: int)
    requires
        all_digits(s),
        0 <= n <= s.len(),
    ensures
        decimal_value(s.subrange(0, n)) <= decimal_value(s),
    decreases s.len() - n,
{
    if n == s.len() {
        assert(s.subrange(0, n) =~= s);
    } else {
        let t = s.drop_last();
        assert forall|i: int| 0 <= i < t.len() implies 48 <= (#[trigger] t[i]) as int <= 57 by {
            assert(t[i] == s[i]);
        }
        lemma_decimal_grows(t, n);
        assert(t.subrange(0, n) =~= s.subrange(0, n));
        assert(48 <= s[s.len() - 1] as int);
    }
}

/// Reads a non-negative decimal number as `usize::from_str` does.
pub fn parse_usize(s: &Vec<char>) -> (r: Option<usize>)
    ensures
        r == parsed_usize(s@),
{
    let n = s.len();
    let start: usize = if n > 0 && s[0] == '+' {
        1
    } else {
        0
    };
    if start == n {
        return None;
    }
    let ghost digits = s@.subrange(start as int, n as int);
    proof {
        if start == 1 {
            assert(digits =~= s@.drop_first());
        } else {
            assert(digits =~= s@);
        }
        assert(digits.subrange(0, 0) =~= Seq::<char>::empty());
    }
    let mut value: usize = 0;
    let mut i: usize = start;
    while i < n
        invariant
            start <= i <= n,
            n == s@.len(),
            digits == s@.subrange(start as int, n as int),
            digits == (if s@.len() > 0 && s@[0] == '+' {
                s@.drop_first()
            } else {
                s@
            }),
            digits.len() > 0,
            all_digits(digits.subrange(0, i - start)),
            value == decimal_value(digits.subrange(0, i - start)),
        decreases n - i,
    {
        let c: u32 = code_point(s[i]);
        let ghost upto = digits.subrange(0, i - start);
        let ghost next = digits.subrange(0, i - start + 1);
        proof {
            assert(next.drop_last() =~= upto);
            assert(next.last() == s@[i as int]);
            assert(digits[i - start] == s@[i as int]);
        }
        if c < 48 || c > 57 {
            assert(!all_digits(digits));
            return None;
        }
        proof {
            assert forall|k: int| 0 <= k < next.len() implies 48 <= (#[trigger] next[k]) as int
                <= 57 by {
                if k < upto.len() {
                    assert(next[k] == upto[k]);
                }
            }
        }
        let d: usize = (c - 48) as usize;
        let tens = match value.checked_mul(10) {
            Some(t) => t,
            None => {
                proof {
                    if all_digits(digits) {
                        lemma_decimal_grows(digits, i - start + 1);
                    }
                }
                return None;
            },
        };
        value = match tens.checked_add(d) {
            Some(v) => v,
            None => {
                proof {
                    if all_digits(digits) {
                        lemma_decimal_grows(digits, i - start + 1);
                    }
                }
                return None;
            },
        };
        i = i + 1;
    }
    proof {
        assert(digits.subrange(0, digits.len() as int) =~= digits);
    }
    Some(value)
}

/// The decimal digit for a number below ten.
pub open spec fn digit_of(d: nat) -> char {
    if d == 0 {
        '0'
    } else if d == 1 {
        '1'
    } else if d == 2 {
        '2'
    } else if d == 3 {
        '3'
    } else if d == 4 {
        '4'
    } else if d == 5 {
        '5'
    } else if d == 6 {
        '6'
    } else if d == 7 {
        '7'
    } else if d == 8 {
        '8'
    } else {
        '9'
    }
}

/// The decimal digits of a number, without leading zeros.
pub open spec fn decimal_of(n: nat) -> Seq<char>
    decreases n,
{
    if n < 10 {
        seq![digit_of(n)]
    } else {
        decimal_of(n / 10).push(digit_of(n % 10))
    }
}

fn digit_text(d: usize) -> (r: &'static str)
    requires
        d < 10,
    ensures
        r@ == seq![digit_of(d as nat)],
{
    proof {
        reveal_strlit("0");
        reveal_strlit("1");
        reveal_strlit("2");
        reveal_strlit("3");
        reveal_strlit("4");
        reveal_strlit("5");
        reveal_strlit("6");
        reveal_strlit("7");
        reveal_strlit("8");
        reveal_strlit("9");
    }
    let r = if d == 0 {
        "0"
    } else if d == 1 {
        "1"
    } else if d == 2 {
        "2"
    } else if d == 3 {
        "3"
    } else if d == 4 {
        "4"
    } else if d == 5 {
        "5"
    } else if d == 6 {
        "6"
    } else if d == 7 {
        "7"
    } else if d == 8 {
        "8"
    } else {
        "9"
    };
    assert(r@ =~= seq![digit_of(d as nat)]);
    r
}

/// Writes a number in decimal.
pub fn decimal(n: usize) -> (r: String)
    ensures
        r@ == decimal_of(n as nat),
    decreases n,
{
    if n < 10 {
        digit_text(n).to_owned()
    } else {
        let mut r = decimal(n / 10);
        r.append(digit_text(n % 10));
        r
    }
}

} // verus!
