//! Character-level string helpers with exact specifications.
//!
//! Strings are specified through their view, the sequence of their
//! characters (`Seq<char>`).
use vstd::prelude::*;

verus! {

broadcast use vstd::string::group_string_axioms;

// ---------------------------------------------------------------------------
// Trusted std calls
// ---------------------------------------------------------------------------

/// Appends one character to a string (`String::push`): the new string is the
/// old one followed by `c`.
#[verifier::external_body]
pub fn push_char(s: &mut String, c: char)
    ensures
        final(s)@ == old(s)@.push(c),
{
    s.push(c);
}

/// Whether `c` has the Unicode `White_Space` property (`char::is_whitespace`): the
/// controls U+0009 to U+000D, the space, U+0085, the no-break space, the Ogham space
/// mark, the spaces U+2000 to U+200A, the line and paragraph separators, the narrow
/// no-break space, the medium mathematical space and the ideographic space.
pub open spec fn white_space(c: char) -> bool {
    let u = c as u32;
    ||| 0x9 <= u <= 0xD
    ||| u == 0x20
    ||| u == 0x85
    ||| u == 0xA0
    ||| u == 0x1680
    ||| 0x2000 <= u <= 0x200A
    ||| u == 0x2028
    ||| u == 0x2029
    ||| u == 0x202F
    ||| u == 0x205F
    ||| u == 0x3000
}

/// Whether `c` has the Unicode `White_Space` property.
pub fn is_white_space(c: char) -> (r: bool)
    ensures
        r == white_space(c),
{
    let u = c as u32;
    (0x9 <= u && u <= 0xD) || u == 0x20 || u == 0x85 || u == 0xA0 || u == 0x1680 || (0x2000 <= u
        && u <= 0x200A) || u == 0x2028 || u == 0x2029 || u == 0x202F || u == 0x205F || u == 0x3000
}

/// Whether `c` is an ASCII character.
pub open spec fn is_ascii_char(c: char) -> bool {
    (c as u32) < 128
}

/// Whether `c` is an ASCII capital letter.
pub open spec fn ascii_upper(c: char) -> bool {
    'A' <= c && c <= 'Z'
}

/// The ASCII lowercase of `c`: a capital letter becomes its small letter, any other
/// character stays.
pub open spec fn ascii_lower(c: char) -> char {
    if ascii_upper(c) {
        ((c as u32) + 32) as char
    } else {
        c
    }
}

/// The Unicode lowercase mapping of a string that holds a character beyond ASCII, as
/// `str::to_lowercase` computes it.
pub uninterp spec fn lowercase_of(s: Seq<char>) -> Seq<char>;

/// Whether every character of `s` is ASCII.
pub open spec fn all_ascii(s: Seq<char>) -> bool {
    forall|i: int| 0 <= i < s.len() ==> is_ascii_char(#[trigger] s[i])
}

/// The lowercase of a string: on ASCII text each capital letter becomes its small letter
/// and every other character stays; other text takes the Unicode lowercase mapping.
pub open spec fn lowercase(s: Seq<char>) -> Seq<char> {
    if all_ascii(s) {
        s.map_values(|c: char| ascii_lower(c))
    } else {
        lowercase_of(s)
    }
}

/// `str::to_lowercase`. The mapping follows the Unicode character database, which lowers
/// each ASCII capital to its small letter, keeps every other ASCII character, and maps no
/// character to an ASCII capital; the contract states those facts and names the mapping
/// of text beyond ASCII.
#[verifier::external_body]
pub fn to_lowercase(s: &str) -> (r: String)
    ensures
        all_ascii(s@) ==> r@ == s@.map_values(|c: char| ascii_lower(c)),
        !all_ascii(s@) ==> r@ == lowercase_of(s@),
        forall|i: int| 0 <= i < r@.len() ==> !ascii_upper(#[trigger] r@[i]),
{
    s.to_lowercase()
}

// ---------------------------------------------------------------------------
// Building and reading strings
// ---------------------------------------------------------------------------

/// The characters of `s`, in order.
pub fn chars_of(s: &str) -> (v: Vec<char>)
    ensures
        v@ == s@,
{
    let mut v: Vec<char> = Vec::new();
    for c in it: s.chars()
        invariant
            v@ == it.seq().take(it.index() as int),
            it.seq() == s@,
    {
        v.push(c);
    }
    v
}

/// Appends the characters `v[from..to]` to `s`.
pub fn push_range(s: &mut String, v: &Vec<char>, from: usize, to: usize)
    requires
        from <= to <= v@.len(),
    ensures
        final(s)@ == old(s)@ + v@.subrange(from as int, to as int),
{
    let mut i = from;
    while i < to
        invariant
            from <= i <= to <= v@.len(),
            s@ == old(s)@ + v@.subrange(from as int, i as int),
        decreases to - i,
    {
        push_char(s, v[i]);
        assert(v@.subrange(from as int, i + 1) =~= v@.subrange(from as int, i as int).push(v@[i as int]));
        i = i + 1;
    }
}

/// A string holding exactly the characters of `v`.
pub fn string_of(v: &Vec<char>) -> (s: String)
    ensures
        s@ == v@,
{
    let mut s = String::new();
    push_range(&mut s, v, 0, v.len());
    assert(v@.subrange(0, v@.len() as int) =~= v@);
    s
}

/// A fresh copy of `s`.
pub fn to_owned_string(s: &str) -> (r: String)
    ensures
        r@ == s@,
{
    let v = chars_of(s);
    string_of(&v)
}

/// `a` followed by `b`.
pub fn concat(a: &str, b: &str) -> (r: String)
    ensures
        r@ == a@ + b@,
{
    let mut r = to_owned_string(a);
    r.append(b);
    r
}

/// A copy of an optional string.
pub fn clone_opt(o: &Option<String>) -> (r: Option<String>)
    ensures
        opt_view(r) == opt_view(*o),
{
    match o {
        Some(s) => Some(s.clone()),
        None => None,
    }
}

/// A copy of a list of strings.
pub fn clone_strings(v: &Vec<String>) -> (r: Vec<String>)
    ensures
        views(r@) == views(v@),
{
    let mut r: Vec<String> = Vec::new();
    for i in 0..v.len()
        invariant
            r@.len() == i,
            views(r@) == views(v@).take(i as int),
    {
        let c = v[i].clone();
        r.push(c);
        assert(r@[i as int]@ == v@[i as int]@);
        assert(views(r@) =~= views(v@).take(i + 1));
    }
    assert(views(v@).take(v@.len() as int) =~= views(v@));
    r
}

/// The view of an optional string.
pub open spec fn opt_view(o: Option<String>) -> Option<Seq<char>> {
    match o {
        Some(s) => Some(s@),
        None => None,
    }
}

/// The views of a list of strings.
pub open spec fn views(v: Seq<String>) -> Seq<Seq<char>> {
    v.map_values(|s: String| s@)
}

// ---------------------------------------------------------------------------
// Comparisons
// ---------------------------------------------------------------------------

/// Whether `p` is a prefix of `s`.
pub open spec fn has_prefix(s: Seq<char>, p: Seq<char>) -> bool {
    p.len() <= s.len() && s.take(p.len() as int) == p
}

/// Whether `p` occurs in `s` at position `i`.
pub open spec fn occurs_at(s: Seq<char>, p: Seq<char>, i: int) -> bool {
    0 <= i && i + p.len() <= s.len() && s.subrange(i, i + p.len()) == p
}

/// Whether `p` occurs anywhere in `s` (the empty pattern occurs everywhere).
pub open spec fn contains_seq(s: Seq<char>, p: Seq<char>) -> bool {
    exists|i: int| occurs_at(s, p, i)
}

/// Whether `p` occurs in `v` at position `i`, checked character by character.
fn matches_at(v: &Vec<char>, p: &Vec<char>, i: usize) -> (r: bool)
    ensures
        r == occurs_at(v@, p@, i as int),
{
    if p.len() > v.len() || i > v.len() - p.len() {
        return false;
    }
    let mut k: usize = 0;
    while k < p.len()
        invariant
            i + p@.len() <= v@.len(),
            v@.len() <= usize::MAX,
            k <= p@.len(),
            forall|j: int| 0 <= j < k ==> v@[i + j] == p@[j],
        decreases p.len() - k,
    {
        if v[i + k] != p[k] {
            assert(v@.subrange(i as int, i + p@.len())[k as int] != p@[k as int]);
            return false;
        }
        k = k + 1;
    }
    assert(v@.subrange(i as int, i + p@.len()) =~= p@);
    true
}

/// Whether two strings hold the same characters.
pub fn str_eq(a: &str, b: &str) -> (r: bool)
    ensures
        r == (a@ == b@),
{
    let va = chars_of(a);
    let vb = chars_of(b);
    if va.len() != vb.len() {
        return false;
    }
    let r = matches_at(&va, &vb, 0);
    if r {
        assert(va@ =~= va@.subrange(0, vb@.len() as int));
    } else {
        assert(va@.subrange(0, vb@.len() as int) =~= va@);
    }
    r
}

/// Whether an optional string is present and equal to `b`.
pub fn opt_str_eq(a: &Option<String>, b: &str) -> (r: bool)
    ensures
        r == (opt_view(*a) == Some(b@)),
{
    match a {
        Some(s) => str_eq(s.as_str(), b),
        None => false,
    }
}

/// Whether `s` starts with `p`.
pub fn starts_with(s: &str, p: &str) -> (r: bool)
    ensures
        r == has_prefix(s@, p@),
{
    let vs = chars_of(s);
    let vp = chars_of(p);
    let r = matches_at(&vs, &vp, 0);
    proof {
        if r {
            assert(s@.take(p@.len() as int) =~= s@.subrange(0, p@.len() as int));
        } else if p@.len() <= s@.len() {
            assert(s@.take(p@.len() as int) =~= s@.subrange(0, p@.len() as int));
        }
    }
    r
}

/// Whether `p` occurs in `s`.
pub fn contains(s: &str, p: &str) -> (r: bool)
    ensures
        r == contains_seq(s@, p@),
{
    let vs = chars_of(s);
    let vp = chars_of(p);
    if vp.len() == 0 {
        assert(s@.subrange(0, 0) =~= p@);
        assert(occurs_at(s@, p@, 0));
        return true;
    }
    if vp.len() > vs.len() {
        return false;
    }
    let mut i: usize = 0;
    while i <= vs.len() - vp.len()
        invariant
            1 <= vp@.len() <= vs@.len(),
            vs@.len() <= usize::MAX,
            i <= vs@.len() - vp@.len() + 1,
            vs@ == s@,
            vp@ == p@,
            forall|j: int| 0 <= j < i ==> !occurs_at(s@, p@, j),
        decreases vs@.len() - vp@.len() + 1 - i,
    {
        if matches_at(&vs, &vp, i) {
            return true;
        }
        i = i + 1;
    }
    assert forall|j: int| !occurs_at(s@, p@, j) by {
        if 0 <= j && j + p@.len() <= s@.len() {
            assert(j < i);
        }
    }
    false
}

/// Whether some string of `v` holds the characters of `s`.
pub fn contains_string(v: &Vec<String>, s: &String) -> (r: bool)
    ensures
        r == views(v@).contains(s@),
{
    let mut i: usize = 0;
    while i < v.len()
        invariant
            i <= v@.len(),
            forall|k: int| 0 <= k < i ==> views(v@)[k] != s@,
        decreases v.len() - i,
    {
        if v[i] == *s {
            assert(views(v@)[i as int] == s@);
            return true;
        }
        i = i + 1;
    }
    false
}

// ---------------------------------------------------------------------------
// Trimming
// ---------------------------------------------------------------------------

/// `s` without its leading white space.
pub open spec fn trim_start(s: Seq<char>) -> Seq<char>
    decreases s.len(),
{
    if s.len() > 0 && white_space(s[0]) {
        trim_start(s.drop_first())
    } else {
        s
    }
}

/// `s` without its trailing white space.
pub open spec fn trim_end(s: Seq<char>) -> Seq<char>
    decreases s.len(),
{
    if s.len() > 0 && white_space(s.last()) {
        trim_end(s.drop_last())
    } else {
        s
    }
}

/// `s` without leading and trailing white space (`str::trim`).
pub open spec fn trim(s: Seq<char>) -> Seq<char> {
    trim_end(trim_start(s))
}

proof fn lemma_trim_start_skip(s: Seq<char>, i: int)
    requires
        0 <= i <= s.len(),
        forall|k: int| 0 <= k < i ==> white_space(#[trigger] s[k]),
    ensures
        trim_start(s) == trim_start(s.skip(i)),
    decreases i,
{
    if i > 0 {
        assert(white_space(s[0]));
        let t = s.drop_first();
        assert forall|k: int| 0 <= k < i - 1 implies white_space(#[trigger] t[k]) by {
            assert(t[k] == s[k + 1]);
        }
        lemma_trim_start_skip(t, i - 1);
        assert(t.skip(i - 1) =~= s.skip(i));
    } else {
        assert(s.skip(0) =~= s);
    }
}

proof fn lemma_trim_end_take(s: Seq<char>, j: int)
    requires
        0 <= j <= s.len(),
        forall|k: int| j <= k < s.len() ==> white_space(#[trigger] s[k]),
    ensures
        trim_end(s) == trim_end(s.take(j)),
    decreases s.len() - j,
{
    if j < s.len() {
        assert(white_space(s.last()));
        let t = s.drop_last();
        assert forall|k: int| j <= k < t.len() implies white_space(#[trigger] t[k]) by {
            assert(t[k] == s[k]);
        }
        lemma_trim_end_take(t, j);
        assert(t.take(j) =~= s.take(j));
    } else {
        assert(s.take(j) =~= s);
    }
}

/// `s` without leading and trailing white space.
pub fn trim_str(s: &str) -> (r: String)
    ensures
        r@ == trim(s@),
{
    let v = chars_of(s);
    let mut i: usize = 0;
    while i < v.len() && is_white_space(v[i])
        invariant
            i <= v@.len(),
            forall|k: int| 0 <= k < i ==> white_space(#[trigger] v@[k]),
        decreases v.len() - i,
    {
        i = i + 1;
    }
    let mut j: usize = v.len();
    while j > i && is_white_space(v[j - 1])
        invariant
            i <= j <= v@.len(),
            forall|k: int| j <= k < v@.len() ==> white_space(#[trigger] v@[k]),
        decreases j,
    {
        j = j - 1;
    }
    let mut r = String::new();
    push_range(&mut r, &v, i, j);
    proof {
        lemma_trim_start_skip(v@, i as int);
        let u = v@.skip(i as int);
        assert(!(u.len() > 0 && white_space(u[0])));
        assert(trim_start(u) == u);
        assert forall|k: int| j - i <= k < u.len() implies white_space(#[trigger] u[k]) by {
            assert(u[k] == v@[k + i]);
        }
        lemma_trim_end_take(u, j - i);
        let w = u.take(j - i);
        assert(w =~= v@.subrange(i as int, j as int));
        assert(!(w.len() > 0 && white_space(w.last())));
        assert(r@ =~= v@.subrange(i as int, j as int));
    }
    r
}

// ---------------------------------------------------------------------------
// Decimal formatting
// ---------------------------------------------------------------------------

/// The character of a decimal digit.
pub open spec fn digit_char(d: nat) -> char {
    (48 + d) as char
}

/// The decimal digits of `n`, most significant first, with no leading zero.
pub open spec fn decimal(n: nat) -> Seq<char>
    decreases n,
{
    if n < 10 {
        seq![digit_char(n)]
    } else {
        decimal(n / 10).push(digit_char(n % 10))
    }
}

/// How `Display` writes an integer: a minus sign before negative values.
pub open spec fn signed_decimal(v: int) -> Seq<char> {
    if v < 0 {
        seq!['-'] + decimal((-v) as nat)
    } else {
        decimal(v as nat)
    }
}

/// `k` zero characters.
pub open spec fn zeros(k: int) -> Seq<char> {
    Seq::new(if k > 0 { k as nat } else { 0 }, |_i: int| '0')
}

/// How `{:0w}` writes an integer: the sign, then zeros up to `width` characters in all,
/// then the digits.
pub open spec fn padded_decimal(v: int, width: int) -> Seq<char> {
    let sign: Seq<char> = if v < 0 { seq!['-'] } else { seq![] };
    let digits = decimal(if v < 0 { (-v) as nat } else { v as nat });
    sign + zeros(width - sign.len() - digits.len()) + digits
}

/// `10` to the power `k`.
pub open spec fn pow10(k: nat) -> nat
    decreases k,
{
    if k == 0 {
        1
    } else {
        10 * pow10((k - 1) as nat)
    }
}

proof fn lemma_decimal_len(n: nat, k: nat)
    requires
        1 <= k,
        n < pow10(k),
    ensures
        1 <= decimal(n).len() <= k,
    decreases n,
{
    if n >= 10 {
        assert(pow10(0) == 1);
        assert(pow10(1) == 10);
        assert(k >= 2);
        assert(n / 10 < pow10((k - 1) as nat));
        lemma_decimal_len(n / 10, (k - 1) as nat);
    }
}

/// Appends the decimal digits of `n`.
pub fn push_decimal(s: &mut String, n: u64)
    ensures
        final(s)@ == old(s)@ + decimal(n as nat),
    decreases n,
{
    if n >= 10 {
        push_decimal(s, n / 10);
    }
    let d = (n % 10) as u32;
    let c: char = match d {
        0 => '0',
        1 => '1',
        2 => '2',
        3 => '3',
        4 => '4',
        5 => '5',
        6 => '6',
        7 => '7',
        8 => '8',
        _ => '9',
    };
    push_char(s, c);
    assert(c == digit_char((n % 10) as nat));
    if n >= 10 {
        assert(decimal(n as nat) == decimal((n / 10) as nat).push(digit_char((n % 10) as nat)));
    }
}

/// Appends `n` as `Display` writes it.
pub fn push_signed(s: &mut String, n: i64)
    ensures
        final(s)@ == old(s)@ + signed_decimal(n as int),
{
    if n < 0 {
        push_char(s, '-');
        let m: u64 = (-(n as i128)) as u64;
        push_decimal(s, m);
        assert(final(s)@ =~= old(s)@ + signed_decimal(n as int));
    } else {
        push_decimal(s, n as u64);
    }
}

/// `n` as `Display` writes it.
pub fn decimal_string(n: i64) -> (r: String)
    ensures
        r@ == signed_decimal(n as int),
{
    let mut r = String::new();
    push_signed(&mut r, n);
    assert(r@ =~= signed_decimal(n as int));
    r
}

/// Appends `v` zero-padded to `width` characters, as `{:0width}` writes it.
pub fn push_padded(s: &mut String, v: i64, width: usize)
    ensures
        final(s)@ == old(s)@ + padded_decimal(v as int, width as int),
{
    let neg = v < 0;
    let m: u64 = if neg { (-(v as i128)) as u64 } else { v as u64 };
    let mut digits = String::new();
    push_decimal(&mut digits, m);
    let dv = chars_of(digits.as_str());
    if neg {
        push_char(s, '-');
    }
    proof {
        assert(18446744073709551615 < pow10(20)) by {
            reveal_with_fuel(pow10, 21);
        }
        lemma_decimal_len(m as nat, 20);
    }
    let sign_len: usize = if neg { 1 } else { 0 };
    let mut k: usize = 0;
    let pad: usize = if width > sign_len + dv.len() { width - sign_len - dv.len() } else { 0 };
    let ghost base = s@;
    while k < pad
        invariant
            k <= pad,
            s@ == base + zeros(k as int),
        decreases pad - k,
    {
        push_char(s, '0');
        assert(zeros(k + 1) =~= zeros(k as int).push('0'));
        k = k + 1;
    }
    push_range(s, &dv, 0, dv.len());
    proof {
        assert(dv@.subrange(0, dv@.len() as int) =~= dv@);
        let sign: Seq<char> = if v < 0 { seq!['-'] } else { seq![] };
        assert(zeros(pad as int) =~= zeros(width - sign.len() - dv@.len()));
        assert(final(s)@ =~= old(s)@ + padded_decimal(v as int, width as int));
    }
}

// ---------------------------------------------------------------------------
// Rewriting
// ---------------------------------------------------------------------------

/// `s` with every occurrence of the non-empty pattern `pat` replaced by `rep`,
/// occurrences taken from the left without overlap (`str::replace`).
pub open spec fn replace_all(s: Seq<char>, pat: Seq<char>, rep: Seq<char>) -> Seq<char>
    decreases s.len(),
{
    if pat.len() == 0 || s.len() < pat.len() {
        s
    } else if s.take(pat.len() as int) == pat {
        rep + replace_all(s.skip(pat.len() as int), pat, rep)
    } else {
        seq![s[0]] + replace_all(s.drop_first(), pat, rep)
    }
}

/// `s` with every occurrence of `pat` replaced by `rep`.
pub fn replace(s: &str, pat: &str, rep: &str) -> (r: String)
    requires
        pat@.len() > 0,
    ensures
        r@ == replace_all(s@, pat@, rep@),
{
    let v = chars_of(s);
    let p = chars_of(pat);
    let mut out = String::new();
    let mut i: usize = 0;
    assert(v@.skip(0) =~= v@);
    assert(out@ + v@ =~= v@);
    while i < v.len()
        invariant
            i <= v@.len(),
            v@ == s@,
            p@ == pat@,
            p@.len() > 0,
            out@ + replace_all(v@.skip(i as int), p@, rep@) == replace_all(v@, p@, rep@),
        decreases v.len() - i,
    {
        let ghost t = v@.skip(i as int);
        if matches_at(&v, &p, i) {
            proof {
                assert(t.take(p@.len() as int) =~= v@.subrange(i as int, i + p@.len()));
                assert(t.skip(p@.len() as int) =~= v@.skip(i + p@.len()));
            }
            out.append(rep);
            proof {
                assert(out@ + replace_all(v@.skip(i + p@.len()), p@, rep@) =~= replace_all(v@, p@, rep@));
            }
            i = i + p.len();
        } else {
            proof {
                if t.len() >= p@.len() {
                    assert(t.take(p@.len() as int) =~= v@.subrange(i as int, i + p@.len()));
                    assert(t.drop_first() =~= v@.skip(i + 1));
                } else {
                    assert(replace_all(t, p@, rep@) == t);
                    let t1 = v@.skip(i + 1);
                    assert(t1.len() < p@.len());
                    assert(replace_all(t1, p@, rep@) == t1);
                    assert(t =~= seq![v@[i as int]] + t1);
                }
            }
            push_char(&mut out, v[i]);
            proof {
                assert(out@ + replace_all(v@.skip(i + 1), p@, rep@) =~= replace_all(v@, p@, rep@));
            }
            i = i + 1;
        }
    }
    proof {
        assert(replace_all(v@.skip(i as int), p@, rep@) == v@.skip(i as int));
        assert(out@ =~= replace_all(v@, p@, rep@));
    }
    out
}

/// `s` with leading copies of the non-empty `p` removed, repeatedly
/// (`str::trim_start_matches`).
pub open spec fn strip_prefixes(s: Seq<char>, p: Seq<char>) -> Seq<char>
    decreases s.len(),
{
    if p.len() > 0 && has_prefix(s, p) {
        strip_prefixes(s.skip(p.len() as int), p)
    } else {
        s
    }
}

/// `s` with leading copies of `p` removed, repeatedly.
pub fn trim_start_matches(s: &str, p: &str) -> (r: String)
    ensures
        r@ == strip_prefixes(s@, p@),
{
    let v = chars_of(s);
    let pv = chars_of(p);
    let mut i: usize = 0;
    assert(v@.skip(0) =~= v@);
    if pv.len() > 0 {
        while matches_at(&v, &pv, i)
            invariant
                i <= v@.len(),
                v@ == s@,
                pv@ == p@,
                pv@.len() > 0,
                strip_prefixes(v@.skip(i as int), p@) == strip_prefixes(s@, p@),
            decreases v.len() - i,
        {
            proof {
                let t = v@.skip(i as int);
                assert(t.take(p@.len() as int) =~= v@.subrange(i as int, i + p@.len()));
                assert(t.skip(p@.len() as int) =~= v@.skip(i + p@.len()));
            }
            i = i + pv.len();
        }
        proof {
            let t = v@.skip(i as int);
            if t.len() >= p@.len() {
                assert(t.take(p@.len() as int) =~= v@.subrange(i as int, i + p@.len()));
            }
        }
    } else {
        assert(v@.skip(0) =~= v@);
    }
    let mut r = String::new();
    push_range(&mut r, &v, i, v.len());
    assert(v@.subrange(i as int, v@.len() as int) =~= v@.skip(i as int));
    r
}

/// `s` without leading copies of `c`.
pub open spec fn trim_char_start(s: Seq<char>, c: char) -> Seq<char>
    decreases s.len(),
{
    if s.len() > 0 && s[0] == c {
        trim_char_start(s.drop_first(), c)
    } else {
        s
    }
}

/// `s` without trailing copies of `c`.
pub open spec fn trim_char_end(s: Seq<char>, c: char) -> Seq<char>
    decreases s.len(),
{
    if s.len() > 0 && s.last() == c {
        trim_char_end(s.drop_last(), c)
    } else {
        s
    }
}

/// `s` without leading and trailing copies of `c` (`str::trim_matches` with a character).
pub open spec fn trim_char(s: Seq<char>, c: char) -> Seq<char> {
    trim_char_end(trim_char_start(s, c), c)
}

proof fn lemma_trim_char_start_skip(s: Seq<char>, c: char, i: int)
    requires
        0 <= i <= s.len(),
        forall|k: int| 0 <= k < i ==> #[trigger] s[k] == c,
    ensures
        trim_char_start(s, c) == trim_char_start(s.skip(i), c),
    decreases i,
{
    if i > 0 {
        let t = s.drop_first();
        assert forall|k: int| 0 <= k < i - 1 implies #[trigger] t[k] == c by {
            assert(t[k] == s[k + 1]);
        }
        lemma_trim_char_start_skip(t, c, i - 1);
        assert(t.skip(i - 1) =~= s.skip(i));
    } else {
        assert(s.skip(0) =~= s);
    }
}

proof fn lemma_trim_char_end_take(s: Seq<char>, c: char, j: int)
    requires
        0 <= j <= s.len(),
        forall|k: int| j <= k < s.len() ==> #[trigger] s[k] == c,
    ensures
        trim_char_end(s, c) == trim_char_end(s.take(j), c),
    decreases s.len() - j,
{
    if j < s.len() {
        let t = s.drop_last();
        assert forall|k: int| j <= k < t.len() implies #[trigger] t[k] == c by {
            assert(t[k] == s[k]);
        }
        lemma_trim_char_end_take(t, c, j);
        assert(t.take(j) =~= s.take(j));
    } else {
        assert(s.take(j) =~= s);
    }
}

/// The characters of `v` without leading and trailing copies of `c`.
pub fn trim_char_vec(v: &Vec<char>, c: char) -> (r: String)
    ensures
        r@ == trim_char(v@, c),
{
    let mut i: usize = 0;
    while i < v.len() && v[i] == c
        invariant
            i <= v@.len(),
            forall|k: int| 0 <= k < i ==> #[trigger] v@[k] == c,
        decreases v.len() - i,
    {
        i = i + 1;
    }
    let mut j: usize = v.len();
    while j > i && v[j - 1] == c
        invariant
            i <= j <= v@.len(),
            forall|k: int| j <= k < v@.len() ==> #[trigger] v@[k] == c,
        decreases j,
    {
        j = j - 1;
    }
    let mut r = String::new();
    push_range(&mut r, v, i, j);
    proof {
        lemma_trim_char_start_skip(v@, c, i as int);
        let u = v@.skip(i as int);
        assert(trim_char_start(u, c) == u);
        assert forall|k: int| j - i <= k < u.len() implies #[trigger] u[k] == c by {
            assert(u[k] == v@[k + i]);
        }
        lemma_trim_char_end_take(u, c, j - i);
        let w = u.take(j - i);
        assert(w =~= v@.subrange(i as int, j as int));
        assert(trim_char_end(w, c) == w);
        assert(r@ =~= v@.subrange(i as int, j as int));
    }
    r
}

/// Whether `c` is an ASCII letter or digit (`char::is_ascii_alphanumeric`).
pub open spec fn ascii_alphanumeric(c: char) -> bool {
    ('0' <= c && c <= '9') || ('a' <= c && c <= 'z') || ('A' <= c && c <= 'Z')
}

/// Whether `c` is an ASCII letter or digit.
pub fn is_ascii_alphanumeric(c: char) -> (r: bool)
    ensures
        r == ascii_alphanumeric(c),
{
    ('0' <= c && c <= '9') || ('a' <= c && c <= 'z') || ('A' <= c && c <= 'Z')
}

} // verus!
