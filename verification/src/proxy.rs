//! Host-header routing for the HTTP data plane: peeking the request bytes
//! for the `Host` header, extracting and validating the subdomain label,
//! and composing the synthetic responses. The sockets and the byte copy
//! live in the runtime around this library; every decision is made here.

use vstd::prelude::*;
use vstd::slice::slice_subrange;
use vstd::string::StringSliceAdditionalSpecFns;
use vstd::string::{StrSliceExecFns, StringExecFns};
use crate::state::{has_tunnel, tunnel_index, AppState, TunnelInfo};
use crate::text::{all_ascii, ascii_string, chars_of, dec_chars, dec_u64_string, is_label_char};

verus! {

/// Byte of a lowercase letter, digit, or hyphen.
pub open spec fn is_label_byte(b: u8) -> bool {
    (97 <= b <= 122) || (48 <= b <= 57) || b == 45
}

/// Byte of a letter of either case, digit, or hyphen.
pub open spec fn is_label_byte_ci(b: u8) -> bool {
    is_label_byte(b) || (65 <= b <= 90)
}

/// ASCII case folding of one byte.
pub open spec fn lower_byte(b: u8) -> u8 {
    if 65 <= b <= 90 {
        (b + 32) as u8
    } else {
        b
    }
}

/// ASCII case folding of a byte sequence.
pub open spec fn lower_bytes(s: Seq<u8>) -> Seq<u8> {
    s.map_values(|b: u8| lower_byte(b))
}

/// The position of the first occurrence of `b`, or the length when there is
/// none.
pub open spec fn first_byte_index(h: Seq<u8>, b: u8) -> nat
    decreases h.len(),
{
    if h.len() == 0 {
        0
    } else if h[0] == b {
        0
    } else {
        1 + first_byte_index(h.drop_first(), b)
    }
}

/// `first_byte_index` finds the first occurrence: nothing before it is `b`,
/// and it points at a `b` unless it reads the whole length.
pub proof fn lemma_first_byte_index(h: Seq<u8>, b: u8)
    ensures
        first_byte_index(h, b) <= h.len(),
        first_byte_index(h, b) < h.len() ==> h[first_byte_index(h, b) as int] == b,
        forall|j: int| 0 <= j < first_byte_index(h, b) ==> h[j] != b,
    decreases h.len(),
{
    if h.len() > 0 && h[0] != b {
        lemma_first_byte_index(h.drop_first(), b);
        assert forall|j: int| 0 <= j < first_byte_index(h, b) implies h[j] != b by {
            if j > 0 {
                assert(h.drop_first()[j - 1] == h[j]);
            }
        }
        if first_byte_index(h, b) < h.len() {
            assert(h.drop_first()[first_byte_index(h, b) - 1] == h[first_byte_index(h, b) as int]);
        }
    }
}

/// The position of the first colon, or the length when there is none.
pub open spec fn colon_index(h: Seq<u8>) -> int {
    first_byte_index(h, 58) as int
}

/// `colon_index` finds the first colon.
pub proof fn lemma_colon_index(h: Seq<u8>)
    ensures
        0 <= colon_index(h) <= h.len(),
        colon_index(h) < h.len() ==> h[colon_index(h)] == 58,
        forall|j: int| 0 <= j < colon_index(h) ==> h[j] != 58,
{
    lemma_first_byte_index(h, 58);
}

/// The host with any `:port` suffix removed.
pub open spec fn strip_port(h: Seq<u8>) -> Seq<u8> {
    h.subrange(0, colon_index(h))
}

/// A well-formed label before case folding: 1 to 63 bytes, letters of either
/// case, digits and hyphens only, no hyphen at either end.
pub open spec fn is_valid_label_bytes_ci(l: Seq<u8>) -> bool {
    &&& 1 <= l.len() <= 63
    &&& forall|i: int| 0 <= i < l.len() ==> is_label_byte_ci(#[trigger] l[i])
    &&& l[0] != 45
    &&& l[l.len() - 1] != 45
}

/// What subdomain a host header names under a base domain: the host minus
/// its port must read `<label>.<base>` exactly, with a well-formed label,
/// which is returned folded to lowercase.
pub open spec fn spec_extract_label(host: Seq<u8>, base: Seq<u8>) -> Option<Seq<u8>> {
    let hp = strip_port(host);
    if hp.len() >= base.len() + 2 && hp[hp.len() - base.len() - 1] == 46 && hp.subrange(
        hp.len() - base.len(),
        hp.len() as int,
    ) == base {
        let label = hp.subrange(0, hp.len() - base.len() - 1);
        if is_valid_label_bytes_ci(label) {
            Some(lower_bytes(label))
        } else {
            None
        }
    } else {
        None
    }
}

/// A folded well-formed label is ASCII and spells a valid label in
/// characters.
pub proof fn lemma_extract_label_valid(label: Seq<u8>)
    requires
        is_valid_label_bytes_ci(label),
    ensures
        all_ascii(lower_bytes(label)),
        crate::types::is_valid_label(chars_of(lower_bytes(label))),
{
    let lo = lower_bytes(label);
    assert forall|i: int| 0 <= i < lo.len() implies lo[i] < 128 && is_label_byte(lo[i]) by {
        assert(is_label_byte_ci(label[i]));
    }
    let cs = chars_of(lo);
    assert forall|i: int| 0 <= i < cs.len() implies is_label_char(#[trigger] cs[i]) by {
        assert(is_label_byte(lo[i]));
    }
    assert(cs[0] != '-') by {
        assert(lo[0] != 45);
    }
    assert(cs[cs.len() - 1] != '-') by {
        assert(lo[lo.len() - 1] != 45);
    }
}

/// The position of the first occurrence of `b` in a byte slice, or the
/// length when there is none.
fn find_byte(h: &[u8], b: u8) -> (r: usize)
    ensures
        r == first_byte_index(h@, b),
{
    let n = h.len();
    let mut i: usize = 0;
    while i < n
        invariant
            i <= n,
            n == h@.len(),
            forall|j: int| 0 <= j < i ==> h@[j] != b,
        decreases n - i,
    {
        if h[i] == b {
            proof {
                lemma_first_byte_index(h@, b);
                assert(first_byte_index(h@, b) == i) by {
                    if first_byte_index(h@, b) < i {
                        assert(h@[first_byte_index(h@, b) as int] == b);
                    }
                    if first_byte_index(h@, b) > i {
                        assert(h@[i as int] != b);
                    }
                }
            }
            return i;
        }
        i += 1;
    }
    proof {
        lemma_first_byte_index(h@, b);
        assert(first_byte_index(h@, b) == n) by {
            if first_byte_index(h@, b) < n {
                assert(h@[first_byte_index(h@, b) as int] == b);
            }
        }
    }
    n
}

/// The first-colon position of a byte slice, computed.
fn find_colon(h: &[u8]) -> (r: usize)
    ensures
        r == colon_index(h@),
{
    find_byte(h, 58)
}

/// Extract and fold the subdomain label of `host` under `base`, as bytes.
fn extract_label_bytes(host: &[u8], base: &[u8]) -> (r: Option<Vec<u8>>)
    ensures
        r is Some <==> spec_extract_label(host@, base@) is Some,
        r matches Some(v) ==> (spec_extract_label(host@, base@) matches Some(l) && v@ == l),
{
    let hp_len = find_colon(host);
    proof {
        lemma_colon_index(host@);
    }
    let ghost hp = strip_port(host@);
    let bn = base.len();
    if hp_len < 2 || hp_len - 2 < bn {
        return None;
    }
    // dot before the base suffix
    if host[hp_len - bn - 1] != 46 {
        proof {
            assert(hp[hp.len() - base@.len() - 1] == host@[hp_len - bn - 1]);
        }
        return None;
    }
    // the suffix itself
    let mut j: usize = 0;
    while j < bn
        invariant
            j <= bn,
            bn == base@.len(),
            hp_len == colon_index(host@),
            bn + 2 <= hp_len <= host@.len(),
            hp == strip_port(host@),
            hp.len() == hp_len,
            forall|x: int| 0 <= x < hp.len() ==> hp[x] == host@[x],
            forall|k: int| 0 <= k < j ==> host@[hp_len - bn + k] == base@[k],
        decreases bn - j,
    {
        if host[hp_len - bn + j] != base[j] {
            proof {
                assert(hp.subrange(hp.len() - base@.len(), hp.len() as int)[j as int] == host@[
                    hp_len - bn + j
                ]);
                assert(hp.subrange(hp.len() - base@.len(), hp.len() as int) != base@);
            }
            return None;
        }
        j += 1;
    }
    proof {
        assert(hp.subrange(hp.len() - base@.len(), hp.len() as int) =~= base@);
    }
    let label_len = hp_len - bn - 1;
    let ghost label = hp.subrange(0, hp.len() - base@.len() - 1);
    proof {
        assert(label.len() == label_len);
        assert(forall|k: int| 0 <= k < label.len() ==> label[k] == host@[k]);
    }
    if label_len > 63 {
        return None;
    }
    if host[0] == 45 || host[label_len - 1] == 45 {
        return None;
    }
    let mut out: Vec<u8> = Vec::new();
    let mut k: usize = 0;
    while k < label_len
        invariant
            k <= label_len,
            label_len == label.len(),
            label_len < host@.len(),
            forall|m: int| 0 <= m < label.len() ==> label[m] == host@[m],
            spec_extract_label(host@, base@) == (if is_valid_label_bytes_ci(label) {
                Some(lower_bytes(label))
            } else {
                None::<Seq<u8>>
            }),
            label[0] != 45,
            label[label.len() - 1] != 45,
            forall|m: int| 0 <= m < k ==> is_label_byte_ci(#[trigger] label[m]),
            out@.len() == k,
            forall|m: int| 0 <= m < k ==> out@[m] == lower_byte(label[m]),
        decreases label_len - k,
    {
        let b = host[k];
        if !((97 <= b && b <= 122) || (48 <= b && b <= 57) || b == 45 || (65 <= b && b <= 90)) {
            proof {
                assert(label[k as int] == host@[k as int]);
                assert(!is_label_byte_ci(label[k as int]));
                assert(!is_valid_label_bytes_ci(label));
            }
            return None;
        }
        out.push(if 65 <= b && b <= 90 {
            b + 32
        } else {
            b
        });
        k += 1;
    }
    proof {
        assert(is_valid_label_bytes_ci(label));
        assert(out@ =~= lower_bytes(label));
    }
    Some(out)
}


/// Extract the subdomain from a Host header under a given base domain.
///
/// The host, with any `:port` suffix stripped, must read `<label>.<base>`
/// exactly (single level); the label is validated and returned lowercased.
pub fn extract_subdomain_with_base(host: &str, base_domain: &str) -> (r: Option<String>)
    ensures
        r is Some <==> spec_extract_label(host.spec_bytes(), base_domain.spec_bytes()) is Some,
        r matches Some(s) ==> (spec_extract_label(host.spec_bytes(), base_domain.spec_bytes())
            matches Some(l) && s@ == chars_of(l) && crate::types::is_valid_label(s@)),
{
    label_string(extract_label_bytes(host.as_bytes(), base_domain.as_bytes()))
}

/// Extract the subdomain from a Host header under the configured base
/// domain, whose own `:port` suffix, if any, is stripped first.
pub fn extract_subdomain(host: &str, tunnel_url: &str) -> (r: Option<String>)
    ensures
        r is Some <==> spec_extract_label(
            host.spec_bytes(),
            strip_port(tunnel_url.spec_bytes()),
        ) is Some,
        r matches Some(s) ==> (spec_extract_label(
            host.spec_bytes(),
            strip_port(tunnel_url.spec_bytes()),
        ) matches Some(l) && s@ == chars_of(l) && crate::types::is_valid_label(s@)),
{
    let ub = tunnel_url.as_bytes();
    let ci = find_colon(ub);
    proof {
        lemma_colon_index(ub@);
    }
    let base = slice_subrange(ub, 0, ci);
    proof {
        assert(base@ =~= strip_port(tunnel_url.spec_bytes()));
    }
    label_string(extract_label_bytes(host.as_bytes(), base))
}

/// Turns extracted label bytes into the subdomain string.
fn label_string(r0: Option<Vec<u8>>) -> (r: Option<String>)
    requires
        r0 matches Some(v) ==> exists|l: Seq<u8>|
            is_valid_label_bytes_ci(l) && v@ == lower_bytes(l),
    ensures
        r is Some <==> r0 is Some,
        r matches Some(s) ==> (r0 matches Some(v) && s@ == chars_of(v@)
            && crate::types::is_valid_label(s@)),
{
    match r0 {
        Some(v) => {
            proof {
                let l = choose|l: Seq<u8>| is_valid_label_bytes_ci(l) && v@ == lower_bytes(l);
                lemma_extract_label_valid(l);
            }
            Some(ascii_string(&v))
        },
        None => None,
    }
}

/// Host-header round trip: for every well-formed label and every base
/// domain without a colon, `<label>.<base>` extracts to exactly the label
/// folded to lowercase.
pub proof fn lemma_extract_roundtrip(l: Seq<u8>, b: Seq<u8>)
    requires
        is_valid_label_bytes_ci(l),
        forall|i: int| 0 <= i < b.len() ==> b[i] != 58,
    ensures
        spec_extract_label(l + seq![46u8] + b, b) == Some(lower_bytes(l)),
{
    let host = l + seq![46u8] + b;
    assert forall|j: int| 0 <= j < host.len() implies host[j] != 58 by {
        if j < l.len() {
            assert(host[j] == l[j] && is_label_byte_ci(l[j]));
        } else if j == l.len() {
            assert(host[j] == 46);
        } else {
            assert(host[j] == b[j - l.len() - 1]);
        }
    }
    lemma_colon_index(host);
    assert(colon_index(host) == host.len()) by {
        if colon_index(host) < host.len() {
            assert(host[colon_index(host)] == 58);
        }
    }
    let hp = strip_port(host);
    assert(hp =~= host);
    assert(hp[hp.len() - b.len() - 1] == 46);
    assert(hp.subrange(hp.len() - b.len(), hp.len() as int) =~= b);
    assert(hp.subrange(0, hp.len() - b.len() - 1) =~= l);
}

/// A colon-free pre-dot part that is not a well-formed label never
/// extracts: under any base, `<junk>.<base>` yields nothing.
pub proof fn lemma_extract_rejects_invalid(l: Seq<u8>, b: Seq<u8>)
    requires
        !is_valid_label_bytes_ci(l),
        forall|i: int| 0 <= i < l.len() ==> l[i] != 58,
        forall|i: int| 0 <= i < b.len() ==> b[i] != 58,
    ensures
        spec_extract_label(l + seq![46u8] + b, b) is None,
{
    let host = l + seq![46u8] + b;
    assert forall|j: int| 0 <= j < host.len() implies host[j] != 58 by {
        if j < l.len() {
            assert(host[j] == l[j]);
        } else if j == l.len() {
            assert(host[j] == 46);
        } else {
            assert(host[j] == b[j - l.len() - 1]);
        }
    }
    lemma_colon_index(host);
    assert(colon_index(host) == host.len()) by {
        if colon_index(host) < host.len() {
            assert(host[colon_index(host)] == 58);
        }
    }
    let hp = strip_port(host);
    assert(hp =~= host);
    if hp.len() >= b.len() + 2 && hp[hp.len() - b.len() - 1] == 46 && hp.subrange(
        hp.len() - b.len(),
        hp.len() as int,
    ) == b {
        assert(hp.subrange(0, hp.len() - b.len() - 1) =~= l);
    }
}

/// The base domain alone, with no subdomain in front, never extracts.
pub proof fn lemma_base_alone_no_label(b: Seq<u8>)
    ensures
        spec_extract_label(b, b) is None,
{
    lemma_colon_index(b);
    let hp = strip_port(b);
    assert(hp.len() <= b.len());
}

/// Whitespace trimmed from the value of a header line: spaces, tabs and a
/// carriage return.
pub open spec fn is_ws(b: u8) -> bool {
    b == 32 || b == 9 || b == 13
}

/// The sequence with leading whitespace removed.
pub open spec fn trim_front(s: Seq<u8>) -> Seq<u8>
    decreases s.len(),
{
    if s.len() > 0 && is_ws(s[0]) {
        trim_front(s.drop_first())
    } else {
        s
    }
}

/// The sequence with trailing whitespace removed.
pub open spec fn trim_back(s: Seq<u8>) -> Seq<u8>
    decreases s.len(),
{
    if s.len() > 0 && is_ws(s[s.len() - 1]) {
        trim_back(s.drop_last())
    } else {
        s
    }
}

/// The sequence with whitespace removed at both ends.
pub open spec fn trim_ws(s: Seq<u8>) -> Seq<u8> {
    trim_back(trim_front(s))
}

/// Trimming at the front keeps a suffix: the part from the first
/// non-whitespace position.
pub proof fn lemma_trim_front_at(s: Seq<u8>, k: int)
    requires
        0 <= k <= s.len(),
        forall|j: int| 0 <= j < k ==> is_ws(#[trigger] s[j]),
        k < s.len() ==> !is_ws(s[k]),
    ensures
        trim_front(s) =~= s.subrange(k, s.len() as int),
    decreases k,
{
    if k > 0 {
        assert(is_ws(s[0]));
        assert forall|j: int| 0 <= j < k - 1 implies is_ws(#[trigger] s.drop_first()[j]) by {
            assert(s.drop_first()[j] == s[j + 1]);
        }
        if k - 1 < s.drop_first().len() {
            assert(s.drop_first()[k - 1] == s[k]);
        }
        lemma_trim_front_at(s.drop_first(), k - 1);
        assert(s.drop_first().subrange(k - 1, s.drop_first().len() as int) =~= s.subrange(
            k,
            s.len() as int,
        ));
    }
}

/// Trimming at the back keeps a prefix: the part up to one past the last
/// non-whitespace position.
pub proof fn lemma_trim_back_at(s: Seq<u8>, k: int)
    requires
        0 <= k <= s.len(),
        forall|j: int| k <= j < s.len() ==> is_ws(#[trigger] s[j]),
        k > 0 ==> !is_ws(s[k - 1]),
    ensures
        trim_back(s) =~= s.subrange(0, k),
    decreases s.len(),
{
    if k < s.len() {
        assert(is_ws(s[s.len() - 1]));
        assert forall|j: int| k <= j < s.drop_last().len() implies is_ws(
            #[trigger] s.drop_last()[j],
        ) by {
            assert(s.drop_last()[j] == s[j]);
        }
        lemma_trim_back_at(s.drop_last(), k);
        assert(s.drop_last().subrange(0, k) =~= s.subrange(0, k));
    }
}

/// A header line with its trailing carriage return, if any, removed.
pub open spec fn strip_cr(line: Seq<u8>) -> Seq<u8> {
    if line.len() > 0 && line[line.len() - 1] == 13 {
        line.drop_last()
    } else {
        line
    }
}

/// Whether a header line is the Host header, case-insensitively.
pub open spec fn is_host_line(line: Seq<u8>) -> bool {
    &&& line.len() >= 5
    &&& lower_byte(line[0]) == 104
    &&& lower_byte(line[1]) == 111
    &&& lower_byte(line[2]) == 115
    &&& lower_byte(line[3]) == 116
    &&& line[4] == 58
}

/// The value of the Host header in raw request bytes: lines end at a line
/// feed, a trailing carriage return is dropped, the search stops at the
/// first blank line or at the end of the data, and the value is trimmed.
pub open spec fn spec_find_host(data: Seq<u8>) -> Option<Seq<u8>>
    decreases data.len(),
{
    let le = first_byte_index(data, 10) as int;
    let line = strip_cr(data.subrange(0, le));
    if is_host_line(line) {
        Some(trim_ws(line.subrange(5, line.len() as int)))
    } else if line.len() == 0 {
        None
    } else if le >= data.len() {
        None
    } else {
        spec_find_host(data.subrange(le + 1, data.len() as int))
    }
}

/// Extract the Host header value from raw HTTP request bytes. The value is
/// returned when it decodes as UTF-8.
#[verifier::rlimit(60)]
pub fn extract_host_from_raw(data: &[u8]) -> (r: Option<String>)
    ensures
        r is Some <==> (spec_find_host(data@) matches Some(h) && vstd::utf8::valid_utf8(h)),
        r matches Some(s) ==> (spec_find_host(data@) matches Some(h) && s@
            == vstd::utf8::decode_utf8(h)),
{
    let mut pos: usize = 0;
    let n = data.len();
    proof {
        assert(data@.subrange(0, data@.len() as int) =~= data@);
    }
    loop
        invariant
            pos <= n,
            n == data@.len(),
            spec_find_host(data@) == spec_find_host(data@.subrange(pos as int, n as int)),
        decreases n - pos,
    {
        let rest = slice_subrange(data, pos, n);
        let le = find_byte(rest, 10);
        proof {
            lemma_first_byte_index(rest@, 10);
        }
        let line_len = if le > 0 && rest[le - 1] == 13 {
            le - 1
        } else {
            le
        };
        let ghost line = strip_cr(rest@.subrange(0, le as int));
        proof {
            assert(rest@.subrange(0, le as int).len() == le);
            if le > 0 && rest@[le - 1] == 13 {
                assert(line =~= rest@.subrange(0, line_len as int));
            } else {
                assert(line =~= rest@.subrange(0, line_len as int));
            }
            assert(line.len() == line_len);
            assert(forall|j: int| 0 <= j < line.len() ==> line[j] == rest@[j]);
        }
        let is_host = line_len >= 5 && (rest[0] == 104 || rest[0] == 72) && (rest[1] == 111
            || rest[1] == 79) && (rest[2] == 115 || rest[2] == 83) && (rest[3] == 116 || rest[3]
            == 84) && rest[4] == 58;
        if is_host {
            // trim the value
            let mut start: usize = 5;
            while start < line_len && (rest[start] == 32 || rest[start] == 9 || rest[start] == 13)
                invariant
                    5 <= start <= line_len,
                    line_len == line.len(),
                    line_len <= rest@.len(),
                    forall|j: int| 0 <= j < line.len() ==> line[j] == rest@[j],
                    forall|j: int| 5 <= j < start ==> is_ws(#[trigger] line[j]),
                decreases line_len - start,
            {
                start += 1;
            }
            let mut end: usize = line_len;
            while end > start && (rest[end - 1] == 32 || rest[end - 1] == 9 || rest[end - 1] == 13)
                invariant
                    start <= end <= line_len,
                    line_len == line.len(),
                    line_len <= rest@.len(),
                    forall|j: int| 0 <= j < line.len() ==> line[j] == rest@[j],
                    forall|j: int| end <= j < line_len ==> is_ws(#[trigger] line[j]),
                decreases end,
            {
                end -= 1;
            }
            let host_slice = slice_subrange(rest, start, end);
            let hv = vstd::slice::slice_to_vec(host_slice);
            proof {
                let value = line.subrange(5, line.len() as int);
                assert forall|j: int| 0 <= j < start - 5 implies is_ws(#[trigger] value[j]) by {
                    assert(value[j] == line[j + 5]);
                }
                if start - 5 < value.len() {
                    assert(value[start - 5] == line[start as int]);
                }
                lemma_trim_front_at(value, start - 5);
                let tf = value.subrange(start - 5, value.len() as int);
                assert forall|j: int| end - start <= j < tf.len() implies is_ws(
                    #[trigger] tf[j],
                ) by {
                    assert(tf[j] == line[j + start]);
                }
                if end - start > 0 {
                    assert(tf[end - start - 1] == line[end - 1]);
                }
                lemma_trim_back_at(tf, end - start);
                assert(trim_ws(value) =~= tf.subrange(0, end - start));
                assert(tf.subrange(0, end - start) =~= rest@.subrange(start as int, end as int));
                assert(hv@ == trim_ws(value));
            }
            return crate::ext::utf8_string(&hv);
        }
        if line_len == 0 {
            return None;
        }
        if le >= rest.len() {
            return None;
        }
        proof {
            assert(rest@.subrange(le + 1, rest@.len() as int) =~= data@.subrange(
                pos + le + 1,
                n as int,
            ));
        }
        pos = pos + le + 1;
    }
}



/// The byte length of a body, as the content-length header reports it.
pub open spec fn clen_of(msg: Seq<char>) -> int {
    (vstd::utf8::encode_utf8(msg).len() as usize) as int
}

/// The reason phrase for a status code.
pub open spec fn status_text(status: u16) -> Seq<char> {
    if status == 400 {
        "Bad Request"@
    } else if status == 404 {
        "Not Found"@
    } else if status == 502 {
        "Bad Gateway"@
    } else if status == 504 {
        "Gateway Timeout"@
    } else {
        "Error"@
    }
}

/// A synthetic plain-text HTTP response: status line, content type and
/// length, connection close, then the body.
pub open spec fn error_response_chars(status: u16, msg: Seq<char>, len_bytes: int) -> Seq<char> {
    "HTTP/1.1 "@ + dec_chars(status as int) + " "@ + status_text(status)
        + "\r\nContent-Type: text/plain\r\nContent-Length: "@ + dec_chars(len_bytes)
        + "\r\nConnection: close\r\n\r\n"@ + msg
}

/// Generate a synthetic error response with a plain-text body.
pub fn error_response(status: u16, message: &str) -> (r: Vec<u8>)
    ensures
        r@ == vstd::utf8::encode_utf8(
            error_response_chars(status, message@, clen_of(message@)),
        ),
{
    let mut s = String::from_str("HTTP/1.1 ");
    let code = dec_u64_string(status as u64);
    s.append(code.as_str());
    s.append(" ");
    s.append(
        if status == 400 {
            "Bad Request"
        } else if status == 404 {
            "Not Found"
        } else if status == 502 {
            "Bad Gateway"
        } else if status == 504 {
            "Gateway Timeout"
        } else {
            "Error"
        },
    );
    s.append("\r\nContent-Type: text/plain\r\nContent-Length: ");
    let clen = dec_u64_string(message.len() as u64);
    s.append(clen.as_str());
    s.append("\r\nConnection: close\r\n\r\n");
    s.append(message);
    proof {
        assert(message.spec_bytes() == vstd::utf8::encode_utf8(message@));
        assert(s@ =~= error_response_chars(status, message@, clen_of(message@)));
    }
    s.as_str().as_bytes_vec()
}

/// The fixed body of the tunnel-list page shown when no Host header names a
/// tunnel.
pub open spec fn list_usage_chars(url: Seq<char>) -> Seq<char> {
    "Tunnel Proxy Server\n\nUse: curl -H \"Host: SUBDOMAIN."@ + url
        + "\" <address>\n\nConnect with: ssh -R 8000:localhost:8000 -p 2222 <subdomain>@server"@
}

/// Generate the tunnel-list response sent when the request carries no Host
/// header.
pub fn tunnel_list_response(tunnel_url: &str) -> (r: Vec<u8>)
    ensures
        r@ == vstd::utf8::encode_utf8(
            error_response_chars(
                400,
                list_usage_chars(tunnel_url@),
                clen_of(list_usage_chars(tunnel_url@)),
            ),
        ),
{
    let mut body = String::from_str("Tunnel Proxy Server\n\nUse: curl -H \"Host: SUBDOMAIN.");
    body.append(tunnel_url);
    body.append(
        "\" <address>\n\nConnect with: ssh -R 8000:localhost:8000 -p 2222 <subdomain>@server",
    );
    proof {
        assert(body@ =~= list_usage_chars(tunnel_url@));
    }
    error_response(400, body.as_str())
}

/// The lines of the registered-tunnel listing, one per tunnel, joined by
/// line feeds.
pub open spec fn listing_lines(ts: Seq<TunnelInfo>, url: Seq<char>) -> Seq<char>
    decreases ts.len(),
{
    if ts.len() == 0 {
        Seq::<char>::empty()
    } else {
        let line = "  - "@ + ts.last().subdomain@ + "."@ + url;
        if ts.len() == 1 {
            line
        } else {
            listing_lines(ts.drop_last(), url) + "\n"@ + line
        }
    }
}

/// The body of the page shown for a request whose Host header names no
/// valid subdomain: the registered tunnels, or a hint when there are none.
pub open spec fn listing_body_chars(ts: Seq<TunnelInfo>, url: Seq<char>) -> Seq<char> {
    if ts.len() == 0 {
        "No tunnels registered.\n\nConnect with: ssh -R 8000:localhost:8000 -p 2222 <subdomain>@server"@
    } else {
        "Available tunnels:\n"@ + listing_lines(ts, url)
            + "\n\nUse: curl -H \"Host: SUBDOMAIN."@ + url + "\" <address>"@
    }
}

/// Generate the 400 response listing the registered tunnels.
fn listing_response(registry: &AppState, tunnel_url: &str) -> (r: Vec<u8>)
    ensures
        r@ == vstd::utf8::encode_utf8(
            error_response_chars(
                400,
                listing_body_chars(registry.tunnels@, tunnel_url@),
                clen_of(listing_body_chars(registry.tunnels@, tunnel_url@)),
            ),
        ),
{
    let n = registry.tunnels.len();
    if n == 0 {
        let body = String::from_str(
            "No tunnels registered.\n\nConnect with: ssh -R 8000:localhost:8000 -p 2222 <subdomain>@server",
        );
        proof {
            assert(body@ =~= listing_body_chars(registry.tunnels@, tunnel_url@));
        }
        error_response(400, body.as_str())
    } else {
        let mut lines = String::new();
        let mut i: usize = 0;
        while i < n
            invariant
                i <= n,
                n == registry.tunnels@.len(),
                n > 0,
                lines@ == listing_lines(registry.tunnels@.subrange(0, i as int), tunnel_url@),
            decreases n - i,
        {
            proof {
                assert(registry.tunnels@.subrange(0, i + 1).drop_last() =~= registry
                    .tunnels@.subrange(0, i as int));
                assert(registry.tunnels@.subrange(0, i + 1).last() == registry.tunnels@[i as int]);
            }
            if i > 0 {
                lines.append("\n");
            }
            lines.append("  - ");
            lines.append(registry.tunnels[i].subdomain.as_str());
            lines.append(".");
            lines.append(tunnel_url);
            proof {
                assert(lines@ =~= listing_lines(
                    registry.tunnels@.subrange(0, i + 1),
                    tunnel_url@,
                ));
            }
            i += 1;
        }
        proof {
            assert(registry.tunnels@.subrange(0, n as int) =~= registry.tunnels@);
        }
        let mut body = String::from_str("Available tunnels:\n");
        body.append(lines.as_str());
        body.append("\n\nUse: curl -H \"Host: SUBDOMAIN.");
        body.append(tunnel_url);
        body.append("\" <address>");
        proof {
            assert(body@ =~= listing_body_chars(registry.tunnels@, tunnel_url@));
        }
        error_response(400, body.as_str())
    }
}

/// What the proxy does with one accepted connection once the peeked bytes
/// are in hand.
#[derive(Debug)]
pub enum RouteDecision {
    /// The peek returned nothing: close without writing a response.
    CloseSilently,
    /// No tunnel was named: write this 400 response and close.
    TunnelList { response: Vec<u8> },
    /// A valid subdomain with no tunnel behind it: write this 404 response
    /// and close.
    NotFound { subdomain: String, response: Vec<u8> },
    /// Open a forwarded channel on this tunnel's session and splice bytes.
    Forward { tunnel: TunnelInfo },
}

/// The Host header bytes of the peeked request, when present and decodable.
pub open spec fn route_host(peek: Seq<u8>) -> Option<Seq<u8>> {
    match spec_find_host(peek) {
        Some(h) => if vstd::utf8::valid_utf8(h) {
            Some(h)
        } else {
            None
        },
        None => None,
    }
}

/// The subdomain label the peeked request names under the configured base
/// domain.
pub open spec fn route_label(peek: Seq<u8>, url_bytes: Seq<u8>) -> Option<Seq<u8>> {
    match route_host(peek) {
        Some(h) => spec_extract_label(h, strip_port(url_bytes)),
        None => None,
    }
}

/// Decide how to handle one peeked request.
///
/// Empty peeks close silently; a request without a usable Host header gets
/// the fixed tunnel-list page; a Host that names no valid subdomain gets
/// the listing page; a valid subdomain is routed to its tunnel or answered
/// with a 404.
pub fn decide_route(peek: &[u8], tunnel_url: &str, registry: &AppState) -> (r: RouteDecision)
    requires
        registry.wf(),
    ensures
        r is CloseSilently <==> peek@.len() == 0,
        (peek@.len() > 0 && route_host(peek@) is None) ==> (r matches RouteDecision::TunnelList {
            response,
        } && response@ == vstd::utf8::encode_utf8(
            error_response_chars(
                400,
                list_usage_chars(tunnel_url@),
                clen_of(list_usage_chars(tunnel_url@)),
            ),
        )),
        (peek@.len() > 0 && route_host(peek@) is Some && route_label(
            peek@,
            tunnel_url.spec_bytes(),
        ) is None) ==> (r matches RouteDecision::TunnelList { response } && response@
            == vstd::utf8::encode_utf8(
            error_response_chars(
                400,
                listing_body_chars(registry.tunnels@, tunnel_url@),
                clen_of(listing_body_chars(registry.tunnels@, tunnel_url@)),
            ),
        )),
        route_label(peek@, tunnel_url.spec_bytes()) matches Some(l) ==> {
            if has_tunnel(registry.tunnels@, chars_of(l)) {
                r matches RouteDecision::Forward { tunnel } && tunnel == registry
                    .tunnels@[tunnel_index(registry.tunnels@, chars_of(l))]
            } else {
                r matches RouteDecision::NotFound { subdomain, response } && subdomain@
                    == chars_of(l) && response@ == vstd::utf8::encode_utf8(
                    error_response_chars(
                        404,
                        not_found_body_chars(chars_of(l)),
                        clen_of(not_found_body_chars(chars_of(l))),
                    ),
                )
            }
        },
{
    if peek.len() == 0 {
        return RouteDecision::CloseSilently;
    }
    let host = match extract_host_from_raw(peek) {
        Some(h) => h,
        None => {
            return RouteDecision::TunnelList { response: tunnel_list_response(tunnel_url) };
        },
    };
    proof {
        let hb = route_host(peek@).unwrap();
        vstd::utf8::decode_utf8_encode_utf8(hb);
        assert(vstd::utf8::encode_utf8(host@) == hb);
    }
    let subdomain = match extract_subdomain(host.as_str(), tunnel_url) {
        Some(s0) => s0,
        None => {
            return RouteDecision::TunnelList { response: listing_response(registry, tunnel_url) };
        },
    };
    match registry.get_tunnel(subdomain.as_str()) {
        Some(t) => RouteDecision::Forward { tunnel: t },
        None => {
            let mut body = String::from_str("Tunnel '");
            body.append(subdomain.as_str());
            body.append("' not found");
            proof {
                assert(body@ =~= not_found_body_chars(subdomain@));
            }
            let response = error_response(404, body.as_str());
            RouteDecision::NotFound { subdomain, response }
        },
    }
}

/// The body of the 404 page for a subdomain with no tunnel.
pub open spec fn not_found_body_chars(sub: Seq<char>) -> Seq<char> {
    "Tunnel '"@ + sub + "' not found"@
}

} // verus!
