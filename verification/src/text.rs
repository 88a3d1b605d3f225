//! Character and byte sequence helpers used throughout the crate.
use vstd::prelude::*;
use vstd::string::StringSliceAdditionalSpecFns;
use vstd::utf8::*;

verus! {

/// Lexicographic order on byte sequences (the order of Rust's `str`).
pub open spec fn bytes_lt(x: Seq<u8>, y: Seq<u8>) -> bool
    decreases x.len(),
{
    if x.len() == 0 {
        y.len() > 0
    } else if y.len() == 0 {
        false
    } else if x[0] < y[0] {
        true
    } else if x[0] > y[0] {
        false
    } else {
        bytes_lt(x.drop_first(), y.drop_first())
    }
}

/// Compares two strings by their UTF-8 bytes.
pub fn str_lt(a: &str, b: &str) -> (r: bool)
    ensures
        r == bytes_lt(a.spec_bytes(), b.spec_bytes()),
{
    let x = a.as_bytes();
    let y = b.as_bytes();
    let mut i: usize = 0;
    assert(x@.skip(0) =~= x@);
    assert(y@.skip(0) =~= y@);
    while i < x.len() && i < y.len()
        invariant
            i <= x@.len(),
            i <= y@.len(),
            x@ == a.spec_bytes(),
            y@ == b.spec_bytes(),
            bytes_lt(x@, y@) == bytes_lt(x@.skip(i as int), y@.skip(i as int)),
        decreases x@.len() - i,
    {
        if x[i] < y[i] {
            return true;
        }
        if x[i] > y[i] {
            return false;
        }
        assert(x@.skip(i as int).drop_first() =~= x@.skip(i + 1));
        assert(y@.skip(i as int).drop_first() =~= y@.skip(i + 1));
        i = i + 1;
    }
    i < y.len()
}

} // verus!

verus! {

/// Strict order on keys: the byte order of their UTF-8 encodings, i.e. the order of `String`.
pub open spec fn key_lt(a: Seq<char>, b: Seq<char>) -> bool {
    bytes_lt(encode_utf8(a), encode_utf8(b))
}

/// A sequence of keys in strictly increasing order.
pub open spec fn strictly_sorted(s: Seq<Seq<char>>) -> bool {
    forall|i: int, j: int| 0 <= i < j < s.len() ==> key_lt(#[trigger] s[i], #[trigger] s[j])
}

pub proof fn lemma_bytes_lt_irreflexive(x: Seq<u8>)
    ensures
        !bytes_lt(x, x),
    decreases x.len(),
{
    if x.len() > 0 {
        lemma_bytes_lt_irreflexive(x.drop_first());
    }
}

pub proof fn lemma_bytes_lt_transitive(x: Seq<u8>, y: Seq<u8>, z: Seq<u8>)
    requires
        bytes_lt(x, y),
        bytes_lt(y, z),
    ensures
        bytes_lt(x, z),
    decreases x.len(),
{
    if x.len() > 0 && y.len() > 0 && z.len() > 0 {
        if x[0] == y[0] && y[0] == z[0] {
            lemma_bytes_lt_transitive(x.drop_first(), y.drop_first(), z.drop_first());
        }
    }
}

pub proof fn lemma_bytes_lt_total(x: Seq<u8>, y: Seq<u8>)
    requires
        x != y,
    ensures
        bytes_lt(x, y) || bytes_lt(y, x),
    decreases x.len(),
{
    if x.len() == 0 {
        assert(y.len() > 0) by {
            if y.len() == 0 {
                assert(x =~= y);
            }
        }
    } else if y.len() == 0 {
    } else if x[0] == y[0] {
        if x.drop_first() == y.drop_first() {
            assert(x =~= seq![x[0]] + x.drop_first());
            assert(y =~= seq![y[0]] + y.drop_first());
        }
        lemma_bytes_lt_total(x.drop_first(), y.drop_first());
    }
}

pub proof fn lemma_key_lt_irreflexive(a: Seq<char>)
    ensures
        !key_lt(a, a),
{
    lemma_bytes_lt_irreflexive(encode_utf8(a));
}

pub proof fn lemma_key_lt_transitive(a: Seq<char>, b: Seq<char>, c: Seq<char>)
    requires
        key_lt(a, b),
        key_lt(b, c),
    ensures
        key_lt(a, c),
{
    lemma_bytes_lt_transitive(encode_utf8(a), encode_utf8(b), encode_utf8(c));
}

pub proof fn lemma_key_lt_asymmetric(a: Seq<char>, b: Seq<char>)
    requires
        key_lt(a, b),
    ensures
        !key_lt(b, a),
{
    if key_lt(b, a) {
        lemma_key_lt_transitive(a, b, a);
        lemma_key_lt_irreflexive(a);
    }
}

pub proof fn lemma_key_lt_total(a: Seq<char>, b: Seq<char>)
    requires
        a != b,
    ensures
        key_lt(a, b) || key_lt(b, a),
{
    if encode_utf8(a) == encode_utf8(b) {
        encode_utf8_decode_utf8(a);
        encode_utf8_decode_utf8(b);
    }
    lemma_bytes_lt_total(encode_utf8(a), encode_utf8(b));
}

/// Compares two strings in the order of `String`.
pub fn key_less(a: &str, b: &str) -> (r: bool)
    ensures
        r == key_lt(a@, b@),
{
    str_lt(a, b)
}

/// Equality of two strings, decided by the key order.
pub fn key_equal(a: &str, b: &str) -> (r: bool)
    ensures
        r == (a@ == b@),
{
    let lt = str_lt(a, b);
    let gt = str_lt(b, a);
    proof {
        if a@ == b@ {
            lemma_key_lt_irreflexive(a@);
        } else {
            lemma_key_lt_total(a@, b@);
        }
    }
    !lt && !gt
}

} // verus!

verus! {

/// The views of a sequence of strings.
pub open spec fn str_views(v: Seq<String>) -> Seq<Seq<char>> {
    v.map_values(|s: String| s@)
}

/// The view of an optional string.
pub open spec fn opt_view(o: Option<String>) -> Option<Seq<char>> {
    match o {
        Some(s) => Some(s@),
        None => None,
    }
}

pub fn clone_opt_str(o: &Option<String>) -> (r: Option<String>)
    ensures
        opt_view(r) == opt_view(*o),
{
    match o {
        Some(s) => Some(s.clone()),
        None => None,
    }
}

pub fn clone_strs(v: &Vec<String>) -> (r: Vec<String>)
    ensures
        str_views(r@) == str_views(v@),
{
    let mut r: Vec<String> = Vec::new();
    for i in 0..v.len()
        invariant
            r@.len() == i,
            i <= v@.len(),
            forall|j: int| 0 <= j < i ==> (#[trigger] r@[j])@ == v@[j]@,
    {
        r.push(v[i].clone());
    }
    assert(str_views(r@) =~= str_views(v@));
    r
}

} // verus!

verus! {

/// Whether `s` begins with `p`.
pub open spec fn starts_with(s: Seq<char>, p: Seq<char>) -> bool {
    p.len() <= s.len() && s.take(p.len() as int) == p
}

/// `s` without the prefix `p`, where `s` begins with `p`.
pub fn strip_prefix<'a>(s: &'a str, p: &str) -> (r: Option<&'a str>)
    ensures
        match r {
            Some(t) => starts_with(s@, p@) && t@ == s@.skip(p@.len() as int),
            None => !starts_with(s@, p@),
        },
{
    let plen = p.unicode_len();
    let slen = s.unicode_len();
    if plen > slen {
        return None;
    }
    let mut i: usize = 0;
    while i < plen
        invariant
            i <= plen <= slen,
            plen == p@.len(),
            slen == s@.len(),
            forall|j: int| 0 <= j < i ==> s@[j] == p@[j],
        decreases plen - i,
    {
        if s.get_char(i) != p.get_char(i) {
            assert(s@.take(plen as int)[i as int] != p@[i as int]);
            return None;
        }
        i = i + 1;
    }
    assert(s@.take(plen as int) =~= p@);
    Some(s.substring_char(plen, slen))
}

/// The directory that holds the Nix store.
pub open spec fn store_dir() -> Seq<char> {
    seq!['/', 'n', 'i', 'x', '/', 's', 't', 'o', 'r', 'e', '/']
}

/// The reference of a component: its store path without the store directory.
pub open spec fn bom_ref_of(p: Seq<char>) -> Seq<char> {
    if starts_with(p, store_dir()) {
        p.skip(store_dir().len() as int)
    } else {
        p
    }
}

/// Strips the store directory from a store path, as component references are written.
pub fn bom_ref(store_path: &str) -> (r: String)
    ensures
        r@ == bom_ref_of(store_path@),
{
    let dir = "/nix/store/";
    proof {
        reveal_strlit("/nix/store/");
    }
    assert(dir@ =~= store_dir());
    match strip_prefix(store_path, dir) {
        Some(rest) => rest.to_owned(),
        None => store_path.to_owned(),
    }
}

} // verus!

verus! {

/// What `char::is_whitespace` answers: whether a character has the Unicode `White_Space` property.
pub uninterp spec fn white_space(c: char) -> bool;

/// What `char::is_numeric` answers: whether a character is in a Unicode number category.
pub uninterp spec fn numeric(c: char) -> bool;

/// Calls `char::is_whitespace`. Claimed: the answer is `white_space(c)`, and on ASCII
/// characters it holds exactly of the space and of the tab to carriage return controls.
#[verifier::external_body]
pub(crate) fn is_whitespace(c: char) -> (r: bool)
    ensures
        r == white_space(c),
        (c as u32) < 128 ==> (r <==> (c == ' ' || ('\t' <= c && c <= '\r'))),
{
    c.is_whitespace()
}

/// Calls `char::is_numeric`. Claimed: the answer is `numeric(c)`, and on ASCII characters it
/// holds exactly of the decimal digits.
#[verifier::external_body]
pub(crate) fn is_numeric(c: char) -> (r: bool)
    ensures
        r == numeric(c),
        (c as u32) < 128 ==> (r <==> ('0' <= c && c <= '9')),
{
    c.is_numeric()
}

/// Whether a character is white space as `char::is_whitespace` decides it: on ASCII, the space
/// and the tab to carriage return controls; beyond ASCII, the Unicode `White_Space` property.
pub open spec fn is_space(c: char) -> bool {
    if (c as u32) < 128 {
        c == ' ' || ('\t' <= c && c <= '\r')
    } else {
        white_space(c)
    }
}

/// Whether a character is numeric as `char::is_numeric` decides it: on ASCII, the decimal
/// digits; beyond ASCII, the Unicode number categories.
pub open spec fn is_number(c: char) -> bool {
    if (c as u32) < 128 {
        '0' <= c && c <= '9'
    } else {
        numeric(c)
    }
}

/// `s` without its leading white space.
pub open spec fn trim_start(s: Seq<char>) -> Seq<char>
    decreases s.len(),
{
    if s.len() > 0 && is_space(s[0]) {
        trim_start(s.drop_first())
    } else {
        s
    }
}

/// `s` without its trailing white space.
pub open spec fn trim_end(s: Seq<char>) -> Seq<char>
    decreases s.len(),
{
    if s.len() > 0 && is_space(s.last()) {
        trim_end(s.drop_last())
    } else {
        s
    }
}

/// `s` without leading and trailing white space, as `str::trim` gives it.
pub open spec fn trimmed(s: Seq<char>) -> Seq<char> {
    trim_end(trim_start(s))
}

/// Removes leading and trailing white space.
pub fn trim(s: &str) -> (r: &str)
    ensures
        r@ == trimmed(s@),
{
    let n = s.unicode_len();
    let mut a: usize = 0;
    assert(s@.skip(0) =~= s@);
    while a < n && is_whitespace(s.get_char(a))
        invariant
            n == s@.len(),
            a <= n,
            trim_start(s@) == trim_start(s@.skip(a as int)),
        decreases n - a,
    {
        assert(s@.skip(a as int).drop_first() =~= s@.skip(a + 1));
        a = a + 1;
    }
    let ghost t = s@.skip(a as int);
    assert(trim_start(s@) == t);
    let mut b: usize = n;
    assert(s@.subrange(a as int, n as int) =~= t);
    while b > a && is_whitespace(s.get_char(b - 1))
        invariant
            n == s@.len(),
            a <= b <= n,
            t == s@.skip(a as int),
            trim_end(t) == trim_end(s@.subrange(a as int, b as int)),
        decreases b,
    {
        assert(s@.subrange(a as int, b as int).drop_last() =~= s@.subrange(a as int, b - 1));
        b = b - 1;
    }
    s.substring_char(a, b)
}

/// Where `c` first occurs in `s`.
pub open spec fn char_index(s: Seq<char>, c: char) -> Option<int>
    decreases s.len(),
{
    if s.len() == 0 {
        None
    } else if s[0] == c {
        Some(0)
    } else {
        match char_index(s.drop_first(), c) {
            Some(i) => Some(i + 1),
            None => None,
        }
    }
}

/// Finds the first occurrence of a character.
pub fn find_char(s: &str, c: char) -> (r: Option<usize>)
    ensures
        match r {
            Some(i) => char_index(s@, c) == Some(i as int),
            None => char_index(s@, c) is None,
        },
{
    let n = s.unicode_len();
    let mut i: usize = 0;
    assert(s@.skip(0) =~= s@);
    while i < n
        invariant
            n == s@.len(),
            i <= n,
            char_index(s@, c) == match char_index(s@.skip(i as int), c) {
                Some(j) => Some(j + i),
                None => None::<int>,
            },
        decreases n - i,
    {
        if s.get_char(i) == c {
            return Some(i);
        }
        assert(s@.skip(i as int).drop_first() =~= s@.skip(i + 1));
        i = i + 1;
    }
    None
}

} // verus!

verus! {

pub proof fn lemma_char_index(s: Seq<char>, c: char)
    ensures
        match char_index(s, c) {
            Some(i) => 0 <= i < s.len() && s[i] == c && forall|j: int| 0 <= j < i ==> s[j] != c,
            None => forall|j: int| 0 <= j < s.len() ==> s[j] != c,
        },
    decreases s.len(),
{
    if s.len() > 0 {
        lemma_char_index(s.drop_first(), c);
        if s[0] != c {
            assert forall|j: int| 1 <= j < s.len() implies s[j] == s.drop_first()[j - 1] by {}
        }
    }
}

/// The text before the first `-`, or all of it.
pub open spec fn first_field(t: Seq<char>) -> Seq<char> {
    match char_index(t, '-') {
        Some(f) => t.take(f),
        None => t,
    }
}

/// The text between the first and the second `-`, if there is a first.
pub open spec fn second_field(t: Seq<char>) -> Option<Seq<char>> {
    match char_index(t, '-') {
        Some(f) => Some(first_field(t.skip(f + 1))),
        None => None,
    }
}

/// The first `-`-separated field of a text.
pub fn first_field_of(t: &str) -> (r: &str)
    ensures
        r@ == first_field(t@),
{
    proof {
        lemma_char_index(t@, '-');
    }
    match find_char(t, '-') {
        Some(f) => t.substring_char(0, f),
        None => t,
    }
}

/// The second `-`-separated field of a text.
pub fn second_field_of(t: &str) -> (r: Option<&str>)
    ensures
        match r {
            Some(p) => second_field(t@) == Some(p@),
            None => second_field(t@) is None,
        },
{
    proof {
        lemma_char_index(t@, '-');
    }
    match find_char(t, '-') {
        Some(f) => {
            let n = t.unicode_len();
            let rest = t.substring_char(f + 1, n);
            assert(rest@ =~= t@.skip(f + 1));
            Some(first_field_of(rest))
        },
        None => None,
    }
}

} // verus!

verus! {

/// Where `c` last occurs in `s`.
pub open spec fn last_char_index(s: Seq<char>, c: char) -> Option<int>
    decreases s.len(),
{
    if s.len() == 0 {
        None
    } else if s.last() == c {
        Some(s.len() - 1)
    } else {
        last_char_index(s.drop_last(), c)
    }
}

pub proof fn lemma_last_char_index(s: Seq<char>, c: char)
    ensures
        match last_char_index(s, c) {
            Some(i) => 0 <= i < s.len() && s[i] == c && forall|j: int| i < j < s.len() ==> s[j] != c,
            None => forall|j: int| 0 <= j < s.len() ==> s[j] != c,
        },
    decreases s.len(),
{
    if s.len() > 0 {
        lemma_last_char_index(s.drop_last(), c);
        assert forall|j: int| 0 <= j < s.len() - 1 implies s[j] == s.drop_last()[j] by {}
    }
}

/// Finds the last occurrence of a character.
pub fn find_last_char(s: &str, c: char) -> (r: Option<usize>)
    ensures
        match r {
            Some(i) => last_char_index(s@, c) == Some(i as int),
            None => last_char_index(s@, c) is None,
        },
{
    let n = s.unicode_len();
    let mut i: usize = n;
    assert(s@.take(n as int) =~= s@);
    while i > 0
        invariant
            n == s@.len(),
            i <= n,
            last_char_index(s@, c) == last_char_index(s@.take(i as int), c),
        decreases i,
    {
        if s.get_char(i - 1) == c {
            return Some(i - 1);
        }
        assert(s@.take(i as int).drop_last() =~= s@.take(i - 1));
        i = i - 1;
    }
    None
}

} // verus!

verus! {

/// A strictly sorted sequence of keys holds no key twice.
pub proof fn lemma_sorted_distinct(s: Seq<Seq<char>>)
    requires
        strictly_sorted(s),
    ensures
        forall|i: int, j: int| 0 <= i < j < s.len() ==> #[trigger] s[i] != #[trigger] s[j],
{
    assert forall|i: int, j: int| 0 <= i < j < s.len() implies #[trigger] s[i] != #[trigger] s[j] by {
        assert(key_lt(s[i], s[j]));
        if s[i] == s[j] {
            lemma_key_lt_irreflexive(s[i]);
        }
    }
}

/// A strictly sorted sequence of keys is fixed by the keys it holds: two that hold the same
/// keys are equal.
pub proof fn lemma_sorted_unique(s: Seq<Seq<char>>, t: Seq<Seq<char>>)
    requires
        strictly_sorted(s),
        strictly_sorted(t),
        forall|x: Seq<char>| s.contains(x) <==> t.contains(x),
    ensures
        s == t,
    decreases s.len(),
{
    if s.len() == 0 {
        if t.len() > 0 {
            assert(t.contains(t[0]));
        }
        assert(s =~= t);
    } else {
        assert(s.contains(s[0]));
        assert(t.len() > 0);
        assert(t.contains(t[0]));
        let k = choose|k: int| 0 <= k < t.len() && t[k] == s[0];
        let m = choose|m: int| 0 <= m < s.len() && s[m] == t[0];
        if k > 0 {
            assert(key_lt(t[0], t[k]));
            if m > 0 {
                assert(key_lt(s[0], s[m]));
                lemma_key_lt_asymmetric(s[0], s[m]);
            } else {
                lemma_key_lt_irreflexive(s[0]);
            }
        }
        assert(s[0] == t[0]);
        let s1 = s.drop_first();
        let t1 = t.drop_first();
        assert forall|x: Seq<char>| s1.contains(x) <==> t1.contains(x) by {
            if s1.contains(x) {
                let i = choose|i: int| 0 <= i < s1.len() && s1[i] == x;
                assert(s[i + 1] == x);
                assert(key_lt(s[0], s[i + 1]));
                assert(s.contains(x));
                let j = choose|j: int| 0 <= j < t.len() && t[j] == x;
                if j == 0 {
                    lemma_key_lt_irreflexive(x);
                }
                assert(t1[j - 1] == x);
            }
            if t1.contains(x) {
                let i = choose|i: int| 0 <= i < t1.len() && t1[i] == x;
                assert(t[i + 1] == x);
                assert(key_lt(t[0], t[i + 1]));
                assert(t.contains(x));
                let j = choose|j: int| 0 <= j < s.len() && s[j] == x;
                if j == 0 {
                    lemma_key_lt_irreflexive(x);
                }
                assert(s1[j - 1] == x);
            }
        }
        assert forall|i: int, j: int| 0 <= i < j < s1.len() implies key_lt(#[trigger] s1[i], #[trigger] s1[j]) by {
            assert(s1[i] == s[i + 1] && s1[j] == s[j + 1]);
        }
        assert forall|i: int, j: int| 0 <= i < j < t1.len() implies key_lt(#[trigger] t1[i], #[trigger] t1[j]) by {
            assert(t1[i] == t[i + 1] && t1[j] == t[j + 1]);
        }
        lemma_sorted_unique(s1, t1);
        assert(s =~= seq![s[0]] + s1);
        assert(t =~= seq![t[0]] + t1);
    }
}

} // verus!
