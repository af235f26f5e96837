//! The three Varlink name grammars, as predicates on bytes and as longest-prefix scanners.
use vstd::prelude::*;
use vstd::string::StringSliceAdditionalSpecFns;

verus! {

/// `[A-Za-z]`
pub open spec fn is_alpha(b: u8) -> bool {
    (65 <= b <= 90) || (97 <= b <= 122)
}

/// `[A-Z]`
pub open spec fn is_upper(b: u8) -> bool {
    65 <= b <= 90
}

/// `[0-9]`
pub open spec fn is_digit(b: u8) -> bool {
    48 <= b <= 57
}

/// `[A-Za-z0-9]`
pub open spec fn is_alnum(b: u8) -> bool {
    is_alpha(b) || is_digit(b)
}

/// Type names: `[A-Z][A-Za-z0-9]*`.
pub open spec fn is_type_name(s: Seq<u8>) -> bool {
    &&& s.len() > 0
    &&& is_upper(s[0])
    &&& forall|i: int| 0 <= i < s.len() ==> #[trigger] is_alnum(s[i])
}

/// Field names: `[A-Za-z](_?[A-Za-z0-9])*`, i.e. single underscores between alphanumerics.
pub open spec fn is_field_name(s: Seq<u8>) -> bool {
    &&& s.len() > 0
    &&& is_alpha(s[0])
    &&& forall|i: int| 0 <= i < s.len() ==> is_alnum(#[trigger] s[i]) || s[i] == 95u8
    &&& forall|i: int| 0 <= i < s.len() && #[trigger] s[i] == 95u8 ==> i + 1 < s.len() && is_alnum(s[i + 1])
}

/// Interface names: `[A-Za-z]([-]*[A-Za-z0-9])*(\.[A-Za-z0-9]([-]*[A-Za-z0-9])*)+`.
///
/// Dot-separated segments over `[A-Za-z0-9-]`, at least two of them, each starting and ending
/// with an alphanumeric, the first starting with a letter.
pub open spec fn is_interface_name(s: Seq<u8>) -> bool {
    &&& s.len() > 0
    &&& is_alpha(s[0])
    &&& is_alnum(s[s.len() - 1])
    &&& forall|i: int| 0 <= i < s.len() ==> is_interface_byte(#[trigger] s[i])
    &&& exists|i: int| 0 <= i < s.len() && #[trigger] s[i] == 46u8
    &&& forall|i: int| 0 <= i < s.len() && #[trigger] s[i] == 46u8 ==> 0 < i && i + 1 < s.len() && is_alnum(s[i - 1]) && is_alnum(s[i + 1])
}

/// `[A-Za-z0-9.-]`
pub open spec fn is_interface_byte(b: u8) -> bool {
    is_alnum(b) || b == 45u8 || b == 46u8
}

/// Type names are the stricter rule: every type name is also a valid field name.
pub proof fn lemma_type_name_is_field_name(s: Seq<u8>)
    requires
        is_type_name(s),
    ensures
        is_field_name(s),
{
    assert forall|i: int| 0 <= i < s.len() && #[trigger] s[i] == 95u8 implies i + 1 < s.len() && is_alnum(s[i + 1]) by {
        assert(is_alnum(s[i]));
    }
}

/// `r` is the length of the longest prefix of `s` that `accepts` takes, or `None` when no prefix
/// is taken.
pub open spec fn longest_prefix(accepts: spec_fn(Seq<u8>) -> bool, s: Seq<u8>, r: Option<usize>) -> bool {
    match r {
        Some(n) => {
            &&& n <= s.len()
            &&& accepts(s.take(n as int))
            &&& forall|m: int| n < m <= s.len() ==> !accepts(#[trigger] s.take(m))
        },
        None => forall|m: int| 0 <= m <= s.len() ==> !accepts(#[trigger] s.take(m)),
    }
}

/// The length of the longest prefix of `t` that `accepts` takes, if any.
pub open spec fn prefix_len(accepts: spec_fn(Seq<u8>) -> bool, t: Seq<u8>) -> Option<usize> {
    if exists|n: usize| longest_prefix(accepts, t, Some(n)) {
        Some(choose|n: usize| longest_prefix(accepts, t, Some(n)))
    } else {
        None
    }
}

/// The longest accepted prefix is unique, so a scanner's answer is `prefix_len`.
pub proof fn lemma_prefix_len(accepts: spec_fn(Seq<u8>) -> bool, t: Seq<u8>, r: Option<usize>)
    requires
        longest_prefix(accepts, t, r),
    ensures
        prefix_len(accepts, t) == r,
{
    match r {
        Some(n) => {
            assert(exists|n: usize| longest_prefix(accepts, t, Some(n)));
            let c = choose|c: usize| longest_prefix(accepts, t, Some(c));
            if c < n {
                assert(!accepts(t.take(n as int)));
            } else if c > n {
                assert(!accepts(t.take(c as int)));
            }
        },
        None => {
            if exists|n: usize| longest_prefix(accepts, t, Some(n)) {
                let c = choose|c: usize| longest_prefix(accepts, t, Some(c));
                assert(!accepts(t.take(c as int)));
            }
        },
    }
}

pub fn byte_is_alnum(b: u8) -> (r: bool)
    ensures
        r == is_alnum(b),
{
    (65 <= b && b <= 90) || (97 <= b && b <= 122) || (48 <= b && b <= 57)
}

/// Length of the longest prefix of `input` that is a type name.
pub fn parse_type_name(input: &[u8]) -> (r: Option<usize>)
    ensures
        longest_prefix(|t: Seq<u8>| is_type_name(t), input@, r),
{
    let len = input.len();
    if len == 0 || !(65 <= input[0] && input[0] <= 90) {
        assert forall|m: int| 0 <= m <= input@.len() implies !is_type_name(#[trigger] input@.take(m)) by {
            if m > 0 {
                assert(input@.take(m)[0] == input@[0]);
            }
        }
        return None;
    }
    let mut i: usize = 1;
    while i < len && byte_is_alnum(input[i])
        invariant
            1 <= i <= len,
            len == input@.len(),
            is_upper(input@[0]),
            forall|k: int| 0 <= k < i ==> #[trigger] is_alnum(input@[k]),
        decreases len - i,
    {
        i += 1;
    }
    assert(is_type_name(input@.take(i as int)));
    assert forall|m: int| i < m <= input@.len() implies !is_type_name(#[trigger] input@.take(m)) by {
        assert(input@.take(m)[i as int] == input@[i as int]);
    }
    Some(i)
}

/// Length of the longest prefix of `input` that is a field name.
pub fn parse_field_name(input: &[u8]) -> (r: Option<usize>)
    ensures
        longest_prefix(|t: Seq<u8>| is_field_name(t), input@, r),
{
    let len = input.len();
    if len == 0 || !((65 <= input[0] && input[0] <= 90) || (97 <= input[0] && input[0] <= 122)) {
        assert forall|m: int| 0 <= m <= input@.len() implies !is_field_name(#[trigger] input@.take(m)) by {
            if m > 0 {
                assert(input@.take(m)[0] == input@[0]);
            }
        }
        return None;
    }
    let mut i: usize = 1;
    loop
        invariant
            1 <= i <= len,
            len == input@.len(),
            is_alpha(input@[0]),
            is_alnum(input@[i - 1]),
            forall|k: int| 0 <= k < i ==> is_alnum(#[trigger] input@[k]) || input@[k] == 95u8,
            forall|k: int| 0 <= k < i && #[trigger] input@[k] == 95u8 ==> k + 1 < i && is_alnum(input@[k + 1]),
        ensures
            1 <= i <= len,
            is_alnum(input@[i - 1]),
            forall|k: int| 0 <= k < i ==> is_alnum(#[trigger] input@[k]) || input@[k] == 95u8,
            forall|k: int| 0 <= k < i && #[trigger] input@[k] == 95u8 ==> k + 1 < i && is_alnum(input@[k + 1]),
            i == len || (!is_alnum(input@[i as int]) && !(i + 1 < len && input@[i as int] == 95u8 && is_alnum(input@[i + 1]))),
        decreases len - i,
    {
        if i < len && byte_is_alnum(input[i]) {
            i += 1;
        } else if i < len && input[i] == 95 && i + 1 < len && byte_is_alnum(input[i + 1]) {
            i += 2;
        } else {
            break;
        }
    }
    let ghost s = input@;
    assert(is_field_name(s.take(i as int)));
    assert forall|m: int| i < m <= s.len() implies !is_field_name(#[trigger] s.take(m)) by {
        let t = s.take(m);
        assert(t[i as int] == s[i as int]);
        if s[i as int] == 95u8 && m > i + 1 {
            assert(t[i + 1] == s[i + 1]);
        }
    }
    Some(i)
}

/// The index of the first byte at or after `i` that is not `-`.
pub open spec fn hyphen_run_end(s: Seq<u8>, i: int) -> int
    decreases s.len() - i,
{
    if 0 <= i < s.len() && s[i] == 45u8 {
        hyphen_run_end(s, i + 1)
    } else {
        i
    }
}

proof fn lemma_hyphen_run_end(s: Seq<u8>, i: int)
    requires
        0 <= i <= s.len(),
    ensures
        i <= hyphen_run_end(s, i) <= s.len(),
        forall|k: int| i <= k < hyphen_run_end(s, i) ==> #[trigger] s[k] == 45u8,
        hyphen_run_end(s, i) == s.len() || s[hyphen_run_end(s, i)] != 45u8,
    decreases s.len() - i,
{
    if i < s.len() && s[i] == 45u8 {
        lemma_hyphen_run_end(s, i + 1);
    }
}

/// Where a segment scan stopped at `end`: no alphanumeric follows, and a run of `-` there is not
/// closed by an alphanumeric.
pub open spec fn segment_stops(s: Seq<u8>, end: int) -> bool {
    end == s.len() || (!is_alnum(s[end]) && (s[end] == 45u8 ==> {
        let j = hyphen_run_end(s, end);
        j == s.len() || !is_alnum(s[j])
    }))
}

/// Consumes the rest of an interface-name segment starting at `start`: runs of `-` each followed
/// by an alphanumeric. Returns the index where the segment ends.
fn segment_rest(input: &[u8], start: usize) -> (end: usize)
    requires
        0 < start <= input@.len(),
        is_alnum(input@[start - 1]),
    ensures
        start <= end <= input@.len(),
        is_alnum(input@[end - 1]),
        forall|k: int| start <= k < end ==> is_alnum(#[trigger] input@[k]) || input@[k] == 45u8,
        segment_stops(input@, end as int),
{
    let len = input.len();
    let mut i = start;
    loop
        invariant
            start <= i <= len,
            0 < i,
            len == input@.len(),
            is_alnum(input@[i - 1]),
            forall|k: int| start <= k < i ==> is_alnum(#[trigger] input@[k]) || input@[k] == 45u8,
        decreases len - i,
    {
        if i < len && byte_is_alnum(input[i]) {
            i += 1;
        } else if i < len && input[i] == 45 {
            let mut j = i;
            while j < len && input[j] == 45
                invariant
                    i <= j <= len,
                    len == input@.len(),
                    forall|k: int| i <= k < j ==> #[trigger] input@[k] == 45u8,
                    hyphen_run_end(input@, j as int) == hyphen_run_end(input@, i as int),
                decreases len - j,
            {
                j += 1;
            }
            if j < len && byte_is_alnum(input[j]) {
                i = j + 1;
            } else {
                return i;
            }
        } else {
            return i;
        }
    }
}

/// Length of the longest prefix of `input` that is an interface name.
pub fn parse_interface_name(input: &[u8]) -> (r: Option<usize>)
    ensures
        longest_prefix(|t: Seq<u8>| is_interface_name(t), input@, r),
{
    let ghost s = input@;
    let len = input.len();
    if len == 0 || !((65 <= input[0] && input[0] <= 90) || (97 <= input[0] && input[0] <= 122)) {
        assert forall|m: int| 0 <= m <= s.len() implies !is_interface_name(#[trigger] s.take(m)) by {
            if m > 0 {
                assert(s.take(m)[0] == s[0]);
            }
        }
        return None;
    }
    let mut i = segment_rest(input, 1);
    let mut dotted: bool = false;
    loop
        invariant
            1 <= i <= len,
            len == s.len(),
            s == input@,
            is_alpha(s[0]),
            is_alnum(s[i - 1]),
            forall|k: int| 0 <= k < i ==> is_interface_byte(#[trigger] s[k]),
            forall|k: int| 0 <= k < i && #[trigger] s[k] == 46u8 ==> 0 < k && k + 1 < i && is_alnum(s[k - 1]) && is_alnum(s[k + 1]),
            dotted ==> exists|k: int| 0 <= k < i && #[trigger] s[k] == 46u8,
            !dotted ==> forall|k: int| 0 <= k < i ==> #[trigger] s[k] != 46u8,
            segment_stops(s, i as int),
        ensures
            1 <= i <= len,
            is_alnum(s[i - 1]),
            forall|k: int| 0 <= k < i ==> is_interface_byte(#[trigger] s[k]),
            forall|k: int| 0 <= k < i && #[trigger] s[k] == 46u8 ==> 0 < k && k + 1 < i && is_alnum(s[k - 1]) && is_alnum(s[k + 1]),
            dotted ==> exists|k: int| 0 <= k < i && #[trigger] s[k] == 46u8,
            !dotted ==> forall|k: int| 0 <= k < i ==> #[trigger] s[k] != 46u8,
            segment_stops(s, i as int),
            i == len || !(s[i as int] == 46u8 && i + 1 < len && is_alnum(s[i + 1])),
        decreases len - i,
    {
        if i < len && input[i] == 46 && i + 1 < len && byte_is_alnum(input[i + 1]) {
            let ghost dot = i as int;
            let next = segment_rest(input, i + 2);
            assert(s[dot] == 46u8);
            i = next;
            dotted = true;
        } else {
            break;
        }
    }
    let ghost n = i as int;
    assert forall|m: int| n < m <= s.len() implies !is_interface_name(#[trigger] s.take(m)) by {
        let t = s.take(m);
        assert(t[n] == s[n]);
        if s[n] == 45u8 {
            let j = hyphen_run_end(s, n);
            lemma_hyphen_run_end(s, n);
            if m <= j {
                assert(t[m - 1] == s[m - 1]);
            } else {
                assert(t[j] == s[j]);
                if s[j] == 46u8 {
                    assert(t[j - 1] == s[j - 1]);
                }
            }
        } else if s[n] == 46u8 {
            if m > n + 1 {
                assert(t[n + 1] == s[n + 1]);
            }
        }
    }
    if dotted {
        let ghost t = s.take(n);
        assert forall|k: int| 0 <= k < t.len() && #[trigger] t[k] == 46u8 implies 0 < k && k + 1 < t.len() && is_alnum(t[k - 1]) && is_alnum(t[k + 1]) by {
            assert(s[k] == 46u8);
        }
        let ghost w = choose|k: int| 0 <= k < n && #[trigger] s[k] == 46u8;
        assert(t[w] == 46u8);
        assert(is_interface_name(t));
        Some(i)
    } else {
        assert forall|m: int| 0 <= m <= n implies !is_interface_name(#[trigger] s.take(m)) by {
            let t = s.take(m);
            if is_interface_name(t) {
                let w = choose|k: int| 0 <= k < t.len() && #[trigger] t[k] == 46u8;
                assert(s[w] == 46u8);
            }
        }
        None
    }
}

/// Whether a prefix scan that found `parsed` took the whole of `name`, leaving nothing behind.
///
/// The scanners succeed on a valid prefix (`foo` out of `foo-bar`), so a name is only valid when
/// the scan also consumes every byte.
pub fn parses_fully(parsed: Option<usize>, name: &str) -> (r: bool)
    ensures
        r == (parsed == Some(name.spec_bytes().len() as usize)),
{
    match parsed {
        Some(n) => n == name.len(),
        None => false,
    }
}

/// A name is accepted exactly when its longest accepted prefix is all of it.
pub proof fn lemma_longest_prefix_whole(accepts: spec_fn(Seq<u8>) -> bool, s: Seq<u8>, r: Option<usize>)
    requires
        longest_prefix(accepts, s, r),
        s.len() <= usize::MAX,
    ensures
        accepts(s) <==> r == Some(s.len() as usize),
{
    assert(s.take(s.len() as int) =~= s);
    let whole = s.take(s.len() as int);
    match r {
        Some(n) => {
            if n < s.len() {
                assert(!accepts(whole));
            }
        },
        None => {
            assert(!accepts(whole));
        },
    }
}

/// The byte-wise equality of two slices.
pub fn bytes_eq(a: &[u8], b: &[u8]) -> (r: bool)
    ensures
        r == (a@ == b@),
{
    if a.len() != b.len() {
        return false;
    }
    let mut i: usize = 0;
    while i < a.len()
        invariant
            i <= a@.len(),
            a@.len() == b@.len(),
            forall|k: int| 0 <= k < i ==> a@[k] == b@[k],
        decreases a@.len() - i,
    {
        if a[i] != b[i] {
            return false;
        }
        i += 1;
    }
    assert(a@ =~= b@);
    true
}

} // verus!
