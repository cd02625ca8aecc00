//! Character-level text handling shared by the adapters: trimming, searching,
//! splitting, joining and decimal conversion, each specified over `Seq<char>`.
use vstd::prelude::*;

verus! {

/// The characters with the Unicode `White_Space` property.
pub open spec fn is_ws(c: char) -> bool {
    let u = c as u32;
    (0x09 <= u && u <= 0x0D) || u == 0x20 || u == 0x85 || u == 0xA0 || u == 0x1680 || (0x2000
        <= u && u <= 0x200A) || u == 0x2028 || u == 0x2029 || u == 0x202F || u == 0x205F || u
        == 0x3000
}

pub open spec fn trim_start(s: Seq<char>) -> Seq<char>
    decreases s.len(),
{
    if s.len() > 0 && is_ws(s[0]) {
        trim_start(s.drop_first())
    } else {
        s
    }
}

pub open spec fn trim_end(s: Seq<char>) -> Seq<char>
    decreases s.len(),
{
    if s.len() > 0 && is_ws(s.last()) {
        trim_end(s.drop_last())
    } else {
        s
    }
}

/// `s` without its leading and trailing whitespace.
pub open spec fn trim(s: Seq<char>) -> Seq<char> {
    trim_end(trim_start(s))
}

/// `n` occurs in `h` starting at position `i`.
pub open spec fn occurs_at(h: Seq<char>, n: Seq<char>, i: int) -> bool {
    0 <= i && i + n.len() <= h.len() && h.subrange(i, i + n.len()) == n
}

pub open spec fn find_from(h: Seq<char>, n: Seq<char>, i: int) -> Option<int>
    decreases h.len() + 1 - i,
{
    if i < 0 || i + n.len() > h.len() {
        None
    } else if occurs_at(h, n, i) {
        Some(i)
    } else {
        find_from(h, n, i + 1)
    }
}

/// The first position at which `n` occurs in `h`.
pub open spec fn find(h: Seq<char>, n: Seq<char>) -> Option<int> {
    find_from(h, n, 0)
}

/// The pieces of `s` between the non-overlapping occurrences of `sep`, scanned
/// from the left.
pub open spec fn split(s: Seq<char>, sep: Seq<char>) -> Seq<Seq<char>>
    decreases s.len(),
{
    if sep.len() == 0 {
        seq![s]
    } else {
        match find(s, sep) {
            Some(i) => if 0 <= i && i + sep.len() <= s.len() {
                seq![s.subrange(0, i)] + split(s.subrange(i + sep.len(), s.len() as int), sep)
            } else {
                seq![s]
            },
            None => seq![s],
        }
    }
}

/// The pieces joined with `sep` between each two neighbours.
pub open spec fn join(parts: Seq<Seq<char>>, sep: Seq<char>) -> Seq<char>
    decreases parts.len(),
{
    if parts.len() == 0 {
        Seq::empty()
    } else if parts.len() == 1 {
        parts[0]
    } else {
        parts[0] + sep + join(parts.drop_first(), sep)
    }
}

pub open spec fn is_digit(c: char) -> bool {
    '0' <= c && c <= '9'
}

pub open spec fn digit_value(c: char) -> nat {
    (c as u32 - 48) as nat
}

/// The number written by the decimal digits `s`.
pub open spec fn digits_value(s: Seq<char>) -> nat
    decreases s.len(),
{
    if s.len() == 0 {
        0
    } else {
        digits_value(s.drop_last()) * 10 + digit_value(s.last())
    }
}

pub open spec fn all_digits(s: Seq<char>) -> bool {
    forall|i: int| 0 <= i < s.len() ==> is_digit(#[trigger] s[i])
}

/// The unsigned 16-bit integer that `s` writes: an optional `+`, then one or more
/// decimal digits, with a value that fits.
pub open spec fn parse_u16(s: Seq<char>) -> Option<u16> {
    let d = if s.len() > 0 && s[0] == '+' {
        s.drop_first()
    } else {
        s
    };
    if d.len() > 0 && all_digits(d) && digits_value(d) <= 0xFFFF {
        Some(digits_value(d) as u16)
    } else {
        None
    }
}

pub open spec fn digit_char(d: nat) -> char {
    if d == 0 {
        '0'
    } else if d == 1 {
        '1'
    } else if d == 2 {
        '2'
    } else if d == 3 {
        '3'
    } else if d == 4 {
        '4'
    } else if d == 5 {
        '5'
    } else if d == 6 {
        '6'
    } else if d == 7 {
        '7'
    } else if d == 8 {
        '8'
    } else {
        '9'
    }
}

/// The decimal writing of `n`, without leading zeros.
pub open spec fn decimal(n: nat) -> Seq<char>
    decreases n,
{
    if n < 10 {
        seq![digit_char(n)]
    } else {
        decimal(n / 10).push(digit_char(n % 10))
    }
}

/// The characters of `s`, one by one.
pub fn chars_of(s: &str) -> (r: Vec<char>)
    ensures
        r@ == s@,
{
    let n = s.unicode_len();
    let mut r: Vec<char> = Vec::new();
    let mut i: usize = 0;
    while i < n
        invariant
            n == s@.len(),
            i <= n,
            r@ == s@.subrange(0, i as int),
        decreases n - i,
    {
        r.push(s.get_char(i));
        i += 1;
        assert(r@ =~= s@.subrange(0, i as int));
    }
    assert(r@ =~= s@);
    r
}

pub proof fn lemma_trim_start_skip(s: Seq<char>, i: int)
    requires
        0 <= i <= s.len(),
        forall|k: int| 0 <= k < i ==> is_ws(#[trigger] s[k]),
    ensures
        trim_start(s) == trim_start(s.subrange(i, s.len() as int)),
    decreases i,
{
    if i > 0 {
        assert(is_ws(s[0]));
        let t = s.drop_first();
        assert forall|k: int| 0 <= k < i - 1 implies is_ws(#[trigger] t[k]) by {
            assert(t[k] == s[k + 1]);
        }
        lemma_trim_start_skip(t, i - 1);
        assert(t.subrange(i - 1, t.len() as int) =~= s.subrange(i, s.len() as int));
    } else {
        assert(s.subrange(0, s.len() as int) =~= s);
    }
}

proof fn lemma_trim_end_skip(s: Seq<char>, j: int)
    requires
        0 <= j <= s.len(),
        forall|k: int| j <= k < s.len() ==> is_ws(#[trigger] s[k]),
    ensures
        trim_end(s) == trim_end(s.subrange(0, j)),
    decreases s.len() - j,
{
    if j < s.len() {
        assert(is_ws(s.last()));
        let t = s.drop_last();
        lemma_trim_end_skip(t, j);
        assert(t.subrange(0, j) =~= s.subrange(0, j));
    } else {
        assert(s.subrange(0, j) =~= s);
    }
}

/// `s` without its leading and trailing whitespace.
pub fn trim_str(s: &str) -> (r: &str)
    ensures
        r@ == trim(s@),
{
    let cs = chars_of(s);
    let n = cs.len();
    let mut i: usize = 0;
    while i < n && is_ws_char(cs[i])
        invariant
            n == s@.len(),
            cs@ == s@,
            i <= n,
            forall|k: int| 0 <= k < i ==> is_ws(#[trigger] s@[k]),
        decreases n - i,
    {
        i += 1;
    }
    proof {
        lemma_trim_start_skip(s@, i as int);
    }
    let ghost t = s@.subrange(i as int, n as int);
    assert(trim_start(t) == t);
    let mut j: usize = n;
    while j > i && is_ws_char(cs[j - 1])
        invariant
            n == s@.len(),
            cs@ == s@,
            i <= j <= n,
            t == s@.subrange(i as int, n as int),
            forall|k: int| j <= k < n ==> is_ws(#[trigger] s@[k]),
        decreases j,
    {
        j -= 1;
    }
    proof {
        let ji = (j - i) as int;
        assert forall|k: int| ji <= k < t.len() implies is_ws(#[trigger] t[k]) by {
            assert(t[k] == s@[k + i]);
        }
        lemma_trim_end_skip(t, ji);
        assert(t.subrange(0, ji) =~= s@.subrange(i as int, j as int));
    }
    s.substring_char(i, j)
}

/// Whether `c` is a Unicode whitespace character.
pub fn is_ws_char(c: char) -> (r: bool)
    ensures
        r == is_ws(c),
{
    let u = c as u32;
    (0x09 <= u && u <= 0x0D) || u == 0x20 || u == 0x85 || u == 0xA0 || u == 0x1680 || (0x2000
        <= u && u <= 0x200A) || u == 0x2028 || u == 0x2029 || u == 0x202F || u == 0x205F || u
        == 0x3000
}

/// Whether `n` occurs in `h` at position `i`.
fn matches_at(h: &Vec<char>, n: &Vec<char>, i: usize) -> (r: bool)
    requires
        i + n@.len() <= h@.len(),
    ensures
        r == occurs_at(h@, n@, i as int),
{
    let hl = h.len();
    let mut k: usize = 0;
    while k < n.len()
        invariant
            hl == h@.len(),
            i + n@.len() <= h@.len(),
            k <= n@.len(),
            forall|m: int| 0 <= m < k ==> h@[i + m] == n@[m],
        decreases n@.len() - k,
    {
        assert(i + k < hl);
        if h[i + k] != n[k] {
            assert(h@.subrange(i as int, i + n@.len())[k as int] != n@[k as int]);
            return false;
        }
        k += 1;
    }
    assert(h@.subrange(i as int, i + n@.len()) =~= n@);
    true
}

/// The first position, at `from` or after, at which `n` occurs in `h`.
pub fn find_chars(h: &Vec<char>, n: &Vec<char>, from: usize) -> (r: Option<usize>)
    ensures
        r matches Some(i) ==> find_from(h@, n@, from as int) == Some(i as int),
        r is None ==> find_from(h@, n@, from as int) is None,
{
    let mut i: usize = from;
    if n.len() > h.len() {
        return None;
    }
    let hl = h.len();
    while i <= hl - n.len()
        invariant
            hl == h@.len(),
            from <= i,
            n@.len() <= h@.len(),
            find_from(h@, n@, from as int) == find_from(h@, n@, i as int),
        decreases h@.len() + 1 - i,
    {
        if matches_at(h, n, i) {
            return Some(i);
        }
        if i == hl {
            assert(find_from(h@, n@, i as int + 1) is None);
            return None;
        }
        i += 1;
    }
    None
}

/// The pieces of `s` between the occurrences of `sep`.
pub fn split_str(s: &str, sep: &str) -> (r: Vec<String>)
    ensures
        r.deep_view() == split(s@, sep@),
{
    let hs = chars_of(s);
    let ns = chars_of(sep);
    let mut r: Vec<String> = Vec::new();
    if ns.len() == 0 {
        r.push(s.to_owned());
        assert(r.deep_view() =~= split(s@, sep@));
        return r;
    }
    let mut pos: usize = 0;
    let n = hs.len();
    assert(s@.subrange(0, n as int) =~= s@);
    loop
        invariant
            hs@ == s@,
            ns@ == sep@,
            ns@.len() > 0,
            pos <= n == s@.len(),
            r.deep_view() + split(s@.subrange(pos as int, n as int), sep@) == split(s@, sep@),
        decreases n - pos,
    {
        let ghost rest = s@.subrange(pos as int, n as int);
        proof {
            lemma_find_shift(s@, sep@, pos as int, 0);
        }
        match find_chars(&hs, &ns, pos) {
            Some(i) => {
                proof {
                    lemma_find_from_bounds(s@, sep@, pos as int);
                    assert(find(rest, sep@) == Some(i - pos));
                    assert(rest.subrange(0, i - pos) =~= s@.subrange(pos as int, i as int));
                    assert(rest.subrange(i - pos + sep@.len(), rest.len() as int) =~= s@.subrange(
                        i + sep@.len(),
                        n as int,
                    ));
                }
                let piece = s.substring_char(pos, i);
                let ghost before = r.deep_view();
                r.push(piece.to_owned());
                assert(r.deep_view() =~= before.push(piece@));
                pos = i + ns.len();
                assert(r.deep_view() + split(s@.subrange(pos as int, n as int), sep@) =~= before
                    + split(rest, sep@));
            },
            None => {
                assert(find(rest, sep@) is None);
                let piece = s.substring_char(pos, n);
                let ghost before = r.deep_view();
                r.push(piece.to_owned());
                assert(r.deep_view() =~= before + split(rest, sep@));
                return r;
            },
        }
    }
}

pub proof fn lemma_find_from_bounds(h: Seq<char>, n: Seq<char>, i: int)
    ensures
        find_from(h, n, i) matches Some(k) ==> i <= k && occurs_at(h, n, k),
    decreases h.len() + 1 - i,
{
    if !(i < 0 || i + n.len() > h.len()) && !occurs_at(h, n, i) {
        lemma_find_from_bounds(h, n, i + 1);
    }
}

/// Searching `h` from `p + k` is searching its tail from `p` on from `k`.
proof fn lemma_find_shift(h: Seq<char>, n: Seq<char>, p: int, k: int)
    requires
        0 <= p <= h.len(),
        0 <= k,
    ensures
        find_from(h.subrange(p, h.len() as int), n, k) == (match find_from(h, n, p + k) {
            Some(j) => Some(j - p),
            None => None,
        }),
    decreases h.len() + 1 - p - k,
{
    let t = h.subrange(p, h.len() as int);
    if k + n.len() > t.len() {
    } else {
        assert(t.subrange(k, k + n.len()) =~= h.subrange(p + k, p + k + n.len()));
        if !occurs_at(t, n, k) {
            lemma_find_shift(h, n, p, k + 1);
        }
    }
}

/// The pieces joined with `sep` between each two neighbours.
pub fn join_strs(parts: &Vec<String>, sep: &str) -> (r: String)
    ensures
        r@ == join(parts.deep_view(), sep@),
{
    let mut r = String::new();
    let n = parts.len();
    if n == 0 {
        return r;
    }
    let mut i: usize = n;
    r.append(parts[n - 1].as_str());
    proof {
        assert(parts.deep_view().subrange(n - 1, n as int) =~= seq![parts[n - 1]@]);
    }
    while i > 1
        invariant
            n == parts@.len(),
            1 <= i <= n,
            r@ == join(parts.deep_view().subrange(i - 1, n as int), sep@),
        decreases i,
    {
        let ghost tail = parts.deep_view().subrange(i - 1, n as int);
        let mut s = String::new();
        s.append(parts[i - 2].as_str());
        s.append(sep);
        s.append(r.as_str());
        r = s;
        i -= 1;
        proof {
            let now = parts.deep_view().subrange(i - 1, n as int);
            assert(now.drop_first() =~= tail);
            assert(now[0] == parts[i - 1]@);
        }
    }
    assert(parts.deep_view().subrange(0, n as int) =~= parts.deep_view());
    r
}

/// The value of the decimal digits `s`, capped at 65536.
fn capped_value(s: &Vec<char>, from: usize) -> (r: u32)
    requires
        from <= s@.len(),
        all_digits(s@.subrange(from as int, s@.len() as int)),
    ensures
        r as nat == if digits_value(s@.subrange(from as int, s@.len() as int)) < 65536 {
            digits_value(s@.subrange(from as int, s@.len() as int))
        } else {
            65536
        },
{
    let mut acc: u32 = 0;
    let mut i: usize = from;
    while i < s.len()
        invariant
            from <= i <= s@.len(),
            all_digits(s@.subrange(from as int, s@.len() as int)),
            acc as nat == if digits_value(s@.subrange(from as int, i as int)) < 65536 {
                digits_value(s@.subrange(from as int, i as int))
            } else {
                65536
            },
        decreases s@.len() - i,
    {
        let ghost prev = s@.subrange(from as int, i as int);
        let ghost next = s@.subrange(from as int, i + 1);
        assert(s@.subrange(from as int, s@.len() as int)[i - from] == s@[i as int]);
        assert(next.drop_last() =~= prev);
        let d = s[i] as u32 - 48;
        let v = acc * 10 + d;
        acc = if v < 65536 {
            v
        } else {
            65536
        };
        assert(digits_value(next) == digits_value(prev) * 10 + d);
        proof {
            if digits_value(prev) >= 65536 {
                assert(digits_value(prev) * 10 >= 65536) by (nonlinear_arith)
                    requires
                        digits_value(prev) >= 65536,
                ;
            }
        }
        i += 1;
    }
    acc
}

/// The unsigned 16-bit integer written in `s`, as `u16`'s `FromStr` reads it.
pub fn parse_u16_str(s: &str) -> (r: Option<u16>)
    ensures
        r == parse_u16(s@),
{
    let cs = chars_of(s);
    let start: usize = if cs.len() > 0 && cs[0] == '+' {
        1
    } else {
        0
    };
    let ghost d = s@.subrange(start as int, s@.len() as int);
    assert(d =~= (if s@.len() > 0 && s@[0] == '+' {
        s@.drop_first()
    } else {
        s@
    }));
    if start >= cs.len() {
        return None;
    }
    let mut i: usize = start;
    while i < cs.len()
        invariant
            cs@ == s@,
            start <= i <= cs@.len(),
            d == s@.subrange(start as int, s@.len() as int),
            d == (if s@.len() > 0 && s@[0] == '+' {
                s@.drop_first()
            } else {
                s@
            }),
            forall|k: int| start <= k < i ==> is_digit(#[trigger] s@[k]),
        decreases cs@.len() - i,
    {
        if !('0' <= cs[i] && cs[i] <= '9') {
            assert(d[i - start] == s@[i as int]);
            assert(!is_digit(d[i - start]));
            return None;
        }
        i += 1;
    }
    assert forall|k: int| 0 <= k < d.len() implies is_digit(#[trigger] d[k]) by {
        assert(d[k] == s@[k + start]);
    }
    let v = capped_value(&cs, start);
    if v < 65536 {
        Some(v as u16)
    } else {
        None
    }
}

fn digit_str(d: u16) -> (r: &'static str)
    requires
        d < 10,
    ensures
        r@ == seq![digit_char(d as nat)],
{
    if d == 0 {
        proof { reveal_strlit("0"); }
        "0"
    } else if d == 1 {
        proof { reveal_strlit("1"); }
        "1"
    } else if d == 2 {
        proof { reveal_strlit("2"); }
        "2"
    } else if d == 3 {
        proof { reveal_strlit("3"); }
        "3"
    } else if d == 4 {
        proof { reveal_strlit("4"); }
        "4"
    } else if d == 5 {
        proof { reveal_strlit("5"); }
        "5"
    } else if d == 6 {
        proof { reveal_strlit("6"); }
        "6"
    } else if d == 7 {
        proof { reveal_strlit("7"); }
        "7"
    } else if d == 8 {
        proof { reveal_strlit("8"); }
        "8"
    } else {
        proof { reveal_strlit("9"); }
        "9"
    }
}

/// The decimal writing of `n`.
pub fn decimal_string(n: u16) -> (r: String)
    ensures
        r@ == decimal(n as nat),
    decreases n,
{
    if n < 10 {
        String::from_str(digit_str(n))
    } else {
        let mut s = decimal_string(n / 10);
        s.append(digit_str(n % 10));
        s
    }
}

/// `s` begins with `prefix`.
pub open spec fn starts_with(s: Seq<char>, prefix: Seq<char>) -> bool {
    prefix.len() <= s.len() && s.subrange(0, prefix.len() as int) == prefix
}

/// Whether `s` begins with `prefix`.
pub fn starts_with_str(s: &str, prefix: &str) -> (r: bool)
    ensures
        r == starts_with(s@, prefix@),
{
    let h = chars_of(s);
    let n = chars_of(prefix);
    if n.len() > h.len() {
        false
    } else {
        matches_at(&h, &n, 0)
    }
}

/// The first position at which `needle` occurs in `s`.
pub fn find_str(s: &str, needle: &str) -> (r: Option<usize>)
    ensures
        r matches Some(i) ==> find(s@, needle@) == Some(i as int) && i + needle@.len() <= s@.len(),
        r is None ==> find(s@, needle@) is None,
{
    let h = chars_of(s);
    let n = chars_of(needle);
    let r = find_chars(&h, &n, 0);
    proof {
        lemma_find_from_bounds(s@, needle@, 0);
    }
    r
}

/// `c` does not occur in `s`.
pub open spec fn lacks(s: Seq<char>, c: char) -> bool {
    forall|k: int| 0 <= k < s.len() ==> #[trigger] s[k] != c
}

proof fn lemma_occurs_char(h: Seq<char>, c: char, m: int)
    requires
        0 <= m < h.len(),
    ensures
        occurs_at(h, seq![c], m) <==> h[m] == c,
{
    assert(h.subrange(m, m + 1) =~= seq![h[m]]);
    assert(seq![h[m]][0] == h[m]);
    assert(seq![c][0] == c);
    assert(seq![c].len() == 1);
}

/// Where `c` is absent from `h` at and after `j`, searching for it from `j` fails.
proof fn lemma_find_absent(h: Seq<char>, c: char, j: int)
    requires
        0 <= j,
        forall|k: int| j <= k < h.len() ==> #[trigger] h[k] != c,
    ensures
        find_from(h, seq![c], j) is None,
    decreases h.len() + 1 - j,
{
    if j + 1 <= h.len() {
        lemma_occurs_char(h, c, j);
        lemma_find_absent(h, c, j + 1);
    }
}

/// The first `c` in `a + [c] + d`, where `a` lacks `c`, is at `a.len()`.
proof fn lemma_find_first_sep(a: Seq<char>, c: char, d: Seq<char>, j: int)
    requires
        lacks(a, c),
        0 <= j <= a.len(),
    ensures
        find_from(a + seq![c] + d, seq![c], j) == Some(a.len() as int),
    decreases a.len() - j,
{
    let h = a + seq![c] + d;
    lemma_occurs_char(h, c, j);
    if j < a.len() {
        assert(h[j] == a[j]);
        lemma_find_first_sep(a, c, d, j + 1);
    }
}

/// No piece of `s` split at `c` holds `c`.
pub proof fn lemma_split_lacks(s: Seq<char>, c: char)
    ensures
        forall|k: int| 0 <= k < split(s, seq![c]).len() ==> lacks(#[trigger] split(s, seq![c])[k], c),
    decreases s.len(),
{
    let sep = seq![c];
    lemma_find_from_bounds(s, sep, 0);
    lemma_find_before(s, sep, 0);
    match find(s, sep) {
        Some(i) => {
            let rest = s.subrange(i + 1, s.len() as int);
            lemma_split_lacks(rest, c);
            assert forall|m: int| 0 <= m < i implies s.subrange(0, i)[m] != c by {
                lemma_occurs_char(s, c, m);
            }
            let parts = split(s, sep);
            assert(parts == seq![s.subrange(0, i)] + split(rest, sep));
            assert forall|k: int| 0 <= k < parts.len() implies lacks(#[trigger] parts[k], c) by {
                if k > 0 {
                    assert(parts[k] == split(rest, sep)[k - 1]);
                }
            }
        },
        None => {
            assert forall|m: int| 0 <= m < s.len() implies s[m] != c by {
                lemma_occurs_char(s, c, m);
            }
        },
    }
}

/// No occurrence of `n` lies between `j` and the first one that a search from
/// `j` finds.
proof fn lemma_find_before(h: Seq<char>, n: Seq<char>, j: int)
    requires
        0 <= j,
    ensures
        find_from(h, n, j) matches Some(i) ==> forall|m: int| j <= m < i ==> !occurs_at(h, n, m),
        find_from(h, n, j) is None ==> forall|m: int| j <= m && m + n.len() <= h.len() ==> !occurs_at(h, n, m),
    decreases h.len() + 1 - j,
{
    if j + n.len() <= h.len() && !occurs_at(h, n, j) {
        lemma_find_before(h, n, j + 1);
    }
}

/// Splitting a join at its one-character separator gives the pieces back.
pub proof fn lemma_split_of_join(xs: Seq<Seq<char>>, c: char)
    requires
        xs.len() >= 1,
        forall|k: int| 0 <= k < xs.len() ==> lacks(#[trigger] xs[k], c),
    ensures
        split(join(xs, seq![c]), seq![c]) == xs,
    decreases xs.len(),
{
    let sep = seq![c];
    if xs.len() == 1 {
        assert(lacks(xs[0], c));
        lemma_find_absent(xs[0], c, 0);
        assert(split(xs[0], sep) =~= xs);
    } else {
        let rest = xs.drop_first();
        assert forall|k: int| 0 <= k < rest.len() implies lacks(#[trigger] rest[k], c) by {
            assert(rest[k] == xs[k + 1]);
        }
        lemma_split_of_join(rest, c);
        let j = join(xs, sep);
        assert(lacks(xs[0], c));
        lemma_find_first_sep(xs[0], c, join(rest, sep), 0);
        assert(j == xs[0] + sep + join(rest, sep));
        assert(j.subrange(0, xs[0].len() as int) =~= xs[0]);
        assert(j.subrange(xs[0].len() as int + 1, j.len() as int) =~= join(rest, sep));
        assert(split(j, sep) =~= seq![xs[0]] + rest);
        assert(seq![xs[0]] + rest =~= xs);
    }
}

/// Joining the pieces of `s` split at `c` with `c` gives `s` back.
pub proof fn lemma_join_of_split(s: Seq<char>, c: char)
    ensures
        join(split(s, seq![c]), seq![c]) == s,
    decreases s.len(),
{
    let sep = seq![c];
    lemma_find_from_bounds(s, sep, 0);
    match find(s, sep) {
        Some(i) => {
            let rest = s.subrange(i + 1, s.len() as int);
            lemma_join_of_split(rest, c);
            let parts = split(s, sep);
            assert(parts == seq![s.subrange(0, i)] + split(rest, sep));
            assert(parts.drop_first() =~= split(rest, sep));
            assert(s.subrange(i, i + 1) =~= sep);
            assert(s.subrange(0, i) + sep + rest =~= s);
        },
        None => {},
    }
}

/// Putting `t` in front of the first piece puts it in front of the join.
proof fn lemma_join_prefix_first(xs: Seq<Seq<char>>, t: Seq<char>, sep: Seq<char>)
    requires
        xs.len() >= 1,
    ensures
        join(seq![t + xs[0]] + xs.drop_first(), sep) == t + join(xs, sep),
{
    let ys = seq![t + xs[0]] + xs.drop_first();
    assert(ys[0] == t + xs[0]);
    assert(ys.drop_first() =~= xs.drop_first());
    if xs.len() > 1 {
        assert(t + xs[0] + sep + join(xs.drop_first(), sep) =~= t + (xs[0] + sep + join(
            xs.drop_first(),
            sep,
        )));
    }
}

/// A join with the separator `c` followed by `t` is a join with `c` alone of
/// the pieces after the first, each with `t` in front.
pub proof fn lemma_join_longer_sep(xs: Seq<Seq<char>>, c: char, t: Seq<char>)
    requires
        xs.len() >= 1,
    ensures
        join(xs, seq![c] + t) == join(
            seq![xs[0]] + xs.drop_first().map_values(|q: Seq<char>| t + q),
            seq![c],
        ),
    decreases xs.len(),
{
    let ys = seq![xs[0]] + xs.drop_first().map_values(|q: Seq<char>| t + q);
    if xs.len() == 1 {
        assert(ys =~= seq![xs[0]]);
    } else {
        let x1 = xs.drop_first();
        lemma_join_longer_sep(x1, c, t);
        let zs = seq![x1[0]] + x1.drop_first().map_values(|q: Seq<char>| t + q);
        lemma_join_prefix_first(zs, t, seq![c]);
        assert(seq![t + zs[0]] + zs.drop_first() =~= ys.drop_first());
        assert(ys.len() > 1);
        assert(ys[0] == xs[0]);
        assert(xs[0] + (seq![c] + t) + join(x1, seq![c] + t) =~= xs[0] + seq![c] + (t + join(
            x1,
            seq![c] + t,
        )));
    }
}

/// Leading whitespace and a core that begins and ends with other characters:
/// trimming leaves the core.
pub proof fn lemma_trim_exact(pre: Seq<char>, core: Seq<char>)
    requires
        forall|k: int| 0 <= k < pre.len() ==> is_ws(#[trigger] pre[k]),
        core.len() > 0,
        !is_ws(core[0]),
        !is_ws(core.last()),
    ensures
        trim(pre + core) == core,
{
    let s = pre + core;
    assert forall|k: int| 0 <= k < pre.len() implies is_ws(#[trigger] s[k]) by {
        assert(s[k] == pre[k]);
    }
    lemma_trim_start_skip(s, pre.len() as int);
    assert(s.subrange(pre.len() as int, s.len() as int) =~= core);
}

/// Whether `a` and `b` hold the same characters.
pub fn same_text(a: &str, b: &str) -> (r: bool)
    ensures
        r == (a@ == b@),
{
    String::from_str(a) == String::from_str(b)
}

/// The arguments of one command-line call.
pub fn args_of(parts: &[&str]) -> (r: Vec<String>)
    ensures
        r.deep_view() == parts@.map_values(|p: &str| p@),
{
    let mut r: Vec<String> = Vec::new();
    let mut i: usize = 0;
    while i < parts.len()
        invariant
            i <= parts@.len(),
            r@.len() == i,
            forall|k: int| 0 <= k < i ==> (#[trigger] r@[k])@ == parts@[k]@,
        decreases parts@.len() - i,
    {
        r.push(String::from_str(parts[i]));
        i += 1;
    }
    assert(r.deep_view() =~= parts@.map_values(|p: &str| p@));
    r
}

} // verus!
