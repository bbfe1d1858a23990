//! Decoding of the dependency query that a request carries in its path:
//! base64 of a UTF-8 text that lists package specifiers.
use vstd::prelude::*;
use vstd::string::StringSliceAdditionalSpecFns;
use vstd::utf8::{decode_utf8, valid_utf8};

use crate::error::ServerError;
use crate::text::{chars_of, lemma_split_on_join, split_on, split_str, string_from_range, string_views};

verus! {

/// Upper bound, in bytes, of an encoded query; legitimate queries (even about
/// a thousand dependencies) stay well under it.
pub const MAX_ENCODED_LEN: usize = 65536;

/// What standard base64 (RFC 4648 alphabet, with padding) decodes `input` to,
/// or `None` where `input` is not valid standard base64.
pub uninterp spec fn base64_standard_decoded(input: Seq<u8>) -> Option<Seq<u8>>;

/// Decodes standard base64.
///
/// Trusted: calls `base64_simd::STANDARD.decode_to_vec`. Its result, an `Err` for
/// input that is not valid base64 and the decoded bytes otherwise, depends on
/// the input alone and is named `base64_standard_decoded`; what that decoding
/// is, is not stated here.
#[verifier::external_body]
fn base64_standard_decode(input: &[u8]) -> (r: Option<Vec<u8>>)
    ensures
        match r {
            Some(bytes) => base64_standard_decoded(input@) == Some(bytes@),
            None => base64_standard_decoded(input@) is None,
        },
{
    base64_simd::STANDARD.decode_to_vec(input).ok()
}

/// The text that `bytes` encode in UTF-8, or `None` where they are not UTF-8.
///
/// Trusted: calls `String::from_utf8`, which std documents as failing exactly
/// on bytes that are not valid UTF-8 and otherwise keeping the bytes as the
/// string's encoding.
#[verifier::external_body]
fn utf8_string(bytes: Vec<u8>) -> (r: Option<String>)
    ensures
        r is Some <==> valid_utf8(bytes@),
        r matches Some(s) ==> s@ == decode_utf8(bytes@),
{
    String::from_utf8(bytes).ok()
}

/// The text of a decoded query: `decoded` is what base64 decoding gave
/// (`None` where the input was not base64); it must be UTF-8.
pub fn decoded_text(decoded: Option<Vec<u8>>) -> (r: Result<String, ServerError>)
    ensures
        match decoded {
            Some(bytes) => if valid_utf8(bytes@) {
                r matches Ok(s) && s@ == decode_utf8(bytes@)
            } else {
                r matches Err(ServerError::Base64DecodingError())
            },
            None => r matches Err(ServerError::Base64DecodingError()),
        },
{
    match decoded {
        Some(bytes) => match utf8_string(bytes) {
            Some(s) => Ok(s),
            None => Err(ServerError::Base64DecodingError()),
        },
        None => Err(ServerError::Base64DecodingError()),
    }
}

/// Decodes a query: refused when longer than `MAX_ENCODED_LEN` bytes,
/// otherwise standard base64 of a UTF-8 text.
pub fn decode_base64(part: &str) -> (r: Result<String, ServerError>)
    ensures
        part.spec_bytes().len() > MAX_ENCODED_LEN ==> r matches Err(ServerError::InvalidQuery),
        part.spec_bytes().len() <= MAX_ENCODED_LEN ==> match base64_standard_decoded(
            part.spec_bytes(),
        ) {
            Some(bytes) => if valid_utf8(bytes) {
                r matches Ok(s) && s@ == decode_utf8(bytes)
            } else {
                r matches Err(ServerError::Base64DecodingError())
            },
            None => r matches Err(ServerError::Base64DecodingError()),
        },
{
    let bytes: &[u8] = part.as_bytes();
    if bytes.len() > MAX_ENCODED_LEN {
        return Err(ServerError::InvalidQuery);
    }
    let decoded: Option<Vec<u8>> = base64_standard_decode(bytes);
    decoded_text(decoded)
}

/// Position `i` of `s` is the `@` that separates the name from the version
/// range: the last `@` of `s`, and not its first character (which belongs to
/// a scoped name such as `@scope/name`).
pub open spec fn is_version_at(s: Seq<char>, i: int) -> bool {
    &&& 0 < i < s.len()
    &&& s[i] == '@'
    &&& forall|j: int| i < j < s.len() ==> s[j] != '@'
}

/// The (name, version range) that the specifier `s` holds, if it holds one.
pub open spec fn parsed_specifier(s: Seq<char>) -> Option<(Seq<char>, Seq<char>)> {
    if exists|i: int| is_version_at(s, i) {
        let i: int = choose|i: int| is_version_at(s, i);
        Some((s.take(i), s.skip(i + 1)))
    } else {
        None
    }
}

/// Splits a specifier `name@range` (the name may be scoped, `@scope/name@range`)
/// at its last `@`, checking nothing of either part.
pub fn parse_package_specifier_no_validation(specifier: &str) -> (r: Result<(String, String), ServerError>)
    ensures
        match r {
            Ok((name, range)) => parsed_specifier(specifier@) == Some((name@, range@)),
            Err(e) => parsed_specifier(specifier@) is None && e matches ServerError::InvalidPackageSpecifier,
        },
{
    let cs: Vec<char> = chars_of(specifier);
    let mut i: usize = cs.len();
    while i > 1
        invariant
            1 <= i <= cs@.len() || (i == cs@.len() && cs@.len() <= 1),
            cs@ == specifier@,
            forall|j: int| i <= j < cs@.len() ==> cs@[j] != '@',
        decreases i,
    {
        i = i - 1;
        if cs[i] == '@' {
            let ghost s: Seq<char> = cs@;
            let ghost k: int = i as int;
            proof {
                assert(is_version_at(s, k));
                let c: int = choose|c: int| is_version_at(s, c);
                if c < k {
                    assert(s[k] != '@');
                } else if c > k {
                    assert(s[c] != '@');
                }
            }
            let name: String = string_from_range(&cs, 0, i);
            let range: String = string_from_range(&cs, i + 1, cs.len());
            return Ok((name, range));
        }
    }
    proof {
        if exists|c: int| is_version_at(cs@, c) {
            let c: int = choose|c: int| is_version_at(cs@, c);
            assert(cs@[c] == '@');
        }
    }
    Err(ServerError::InvalidPackageSpecifier)
}

/// A request to resolve a package name against a version range.
#[derive(Debug, Clone, PartialEq, Eq, Hash)]
pub struct DepRequest {
    pub name: String,
    pub version: String,
}

impl View for DepRequest {
    type V = (Seq<char>, Seq<char>);

    open spec fn view(&self) -> (Seq<char>, Seq<char>) {
        (self.name@, self.version@)
    }
}

impl DepRequest {
    /// The request for `name` at the range `version`; both must be non-empty.
    pub fn from_name_version(name: String, version: String) -> (r: Result<DepRequest, ServerError>)
        ensures
            name@.len() > 0 && version@.len() > 0 <==> r is Ok,
            r matches Ok(d) ==> d.name == name && d.version == version,
            r matches Err(e) ==> e matches ServerError::InvalidPackageSpecifier,
    {
        if name.as_str().is_empty() || version.as_str().is_empty() {
            Err(ServerError::InvalidPackageSpecifier)
        } else {
            Ok(DepRequest { name, version })
        }
    }
}

/// The requests that one `;`-separated part of a query asks for: its name
/// with each `,`-separated range; `None` where the part is not a specifier or
/// a range is empty.
pub open spec fn part_requests(part: Seq<char>) -> Option<Seq<(Seq<char>, Seq<char>)>> {
    match parsed_specifier(part) {
        None => None,
        Some((name, range)) => {
            let ranges: Seq<Seq<char>> = split_on(range, ',');
            if forall|k: int| 0 <= k < ranges.len() ==> #[trigger] ranges[k].len() > 0 {
                Some(ranges.map_values(|v: Seq<char>| (name, v)))
            } else {
                None
            }
        },
    }
}

/// The requests of all the parts, in order; `None` where some part fails.
pub open spec fn parts_requests(parts: Seq<Seq<char>>) -> Option<Seq<(Seq<char>, Seq<char>)>>
    decreases parts.len(),
{
    if parts.len() == 0 {
        Some(Seq::empty())
    } else {
        match (parts_requests(parts.drop_last()), part_requests(parts.last())) {
            (Some(a), Some(b)) => Some(a + b),
            _ => None,
        }
    }
}

/// The requests that a decoded query asks for, with repetitions, in order;
/// `None` where the query is malformed.
pub open spec fn query_requests(query: Seq<char>) -> Option<Seq<(Seq<char>, Seq<char>)>> {
    parts_requests(split_on(query, ';'))
}

/// The views of a sequence of requests.
pub open spec fn request_views(v: Seq<DepRequest>) -> Seq<(Seq<char>, Seq<char>)> {
    v.map_values(|d: DepRequest| d@)
}

/// No request occurs twice.
pub open spec fn distinct_requests(v: Seq<DepRequest>) -> bool {
    forall|i: int, j: int| 0 <= i < j < v.len() ==> v[i]@ != v[j]@
}

/// A failing part makes the whole list fail.
proof fn lemma_parts_requests_fail(parts: Seq<Seq<char>>, i: int)
    requires
        0 <= i < parts.len(),
        part_requests(parts[i]) is None,
    ensures
        parts_requests(parts) is None,
    decreases parts.len(),
{
    if i < parts.len() - 1 {
        lemma_parts_requests_fail(parts.drop_last(), i);
    }
}

/// The requests of two lists of parts, one after the other, are those of
/// the first list followed by those of the second.
proof fn lemma_parts_requests_join(p1: Seq<Seq<char>>, p2: Seq<Seq<char>>)
    requires
        parts_requests(p1) is Some,
        parts_requests(p2) is Some,
    ensures
        parts_requests(p1 + p2) == Some(parts_requests(p1)->0 + parts_requests(p2)->0),
    decreases p2.len(),
{
    if p2.len() == 0 {
        assert(p1 + p2 =~= p1);
        assert(parts_requests(p1)->0 + parts_requests(p2)->0 =~= parts_requests(p1)->0);
    } else {
        lemma_parts_requests_join(p1, p2.drop_last());
        assert((p1 + p2).drop_last() =~= p1 + p2.drop_last());
        assert((p1 + p2).last() == p2.last());
        let a: Seq<(Seq<char>, Seq<char>)> = parts_requests(p1)->0;
        let b: Seq<(Seq<char>, Seq<char>)> = parts_requests(p2.drop_last())->0;
        let c: Seq<(Seq<char>, Seq<char>)> = part_requests(p2.last())->0;
        assert(a + b + c =~= a + (b + c));
    }
}

/// Joining two well-formed queries with `;` asks for the requests of the
/// first, then those of the second; as sets, their union (in either order).
pub proof fn lemma_query_join(q1: Seq<char>, q2: Seq<char>)
    requires
        query_requests(q1) is Some,
        query_requests(q2) is Some,
    ensures
        query_requests(q1 + seq![';'] + q2) == Some(query_requests(q1)->0 + query_requests(q2)->0),
        (query_requests(q1)->0 + query_requests(q2)->0).to_set() == query_requests(q1)->0.to_set().union(
            query_requests(q2)->0.to_set(),
        ),
        query_requests(q1 + seq![';'] + q2)->0.to_set() == query_requests(q2 + seq![';'] + q1)->0.to_set(),
{
    lemma_split_on_join(q1, q2, ';');
    lemma_split_on_join(q2, q1, ';');
    lemma_parts_requests_join(split_on(q1, ';'), split_on(q2, ';'));
    lemma_parts_requests_join(split_on(q2, ';'), split_on(q1, ';'));
    let a: Seq<(Seq<char>, Seq<char>)> = query_requests(q1)->0;
    let b: Seq<(Seq<char>, Seq<char>)> = query_requests(q2)->0;
    assert forall|x: (Seq<char>, Seq<char>)| #[trigger] (a + b).contains(x) <==> (a.contains(x)
        || b.contains(x)) by {
        if (a + b).contains(x) {
            let i: int = choose|i: int| 0 <= i < (a + b).len() && (a + b)[i] == x;
            if i < a.len() {
                assert(a[i] == x);
            } else {
                assert(b[i - a.len()] == x);
            }
        }
        if a.contains(x) {
            let i: int = choose|i: int| 0 <= i < a.len() && a[i] == x;
            assert((a + b)[i] == x);
        }
        if b.contains(x) {
            let i: int = choose|i: int| 0 <= i < b.len() && b[i] == x;
            assert((a + b)[i + a.len()] == x);
        }
    }
    assert forall|x: (Seq<char>, Seq<char>)| #[trigger] (b + a).contains(x) <==> (a.contains(x)
        || b.contains(x)) by {
        if (b + a).contains(x) {
            let i: int = choose|i: int| 0 <= i < (b + a).len() && (b + a)[i] == x;
            if i < b.len() {
                assert(b[i] == x);
            } else {
                assert(a[i - b.len()] == x);
            }
        }
        if b.contains(x) {
            let i: int = choose|i: int| 0 <= i < b.len() && b[i] == x;
            assert((b + a)[i] == x);
        }
        if a.contains(x) {
            let i: int = choose|i: int| 0 <= i < a.len() && a[i] == x;
            assert((b + a)[i + b.len()] == x);
        }
    }
    assert((a + b).to_set() =~= a.to_set().union(b.to_set()));
    assert((a + b).to_set() =~= (b + a).to_set());
}

/// Adds `r` to `reqs` unless an equal request is there already.
fn insert_request(reqs: &mut Vec<DepRequest>, r: DepRequest)
    requires
        distinct_requests(old(reqs)@),
    ensures
        distinct_requests(final(reqs)@),
        forall|x: (Seq<char>, Seq<char>)| #[trigger] request_views(final(reqs)@).contains(x) <==> (
        request_views(old(reqs)@).contains(x) || x == r@),
{
    let mut i: usize = 0;
    while i < reqs.len()
        invariant
            i <= reqs@.len(),
            reqs@ == old(reqs)@,
            distinct_requests(reqs@),
            forall|j: int| 0 <= j < i ==> reqs@[j]@ != r@,
        decreases reqs@.len() - i,
    {
        if reqs[i].name == r.name && reqs[i].version == r.version {
            assert(request_views(reqs@)[i as int] == r@);
            return;
        }
        i = i + 1;
    }
    let ghost before: Seq<DepRequest> = reqs@;
    reqs.push(r);
    assert forall|x: (Seq<char>, Seq<char>)| #[trigger] request_views(reqs@).contains(x) <==> (
    request_views(before).contains(x) || x == r@) by {
        if request_views(reqs@).contains(x) {
            let j: int = choose|j: int| 0 <= j < reqs@.len() && request_views(reqs@)[j] == x;
            if j < before.len() {
                assert(request_views(before)[j] == x);
            }
        }
        if request_views(before).contains(x) {
            let j: int = choose|j: int| 0 <= j < before.len() && request_views(before)[j] == x;
            assert(request_views(reqs@)[j] == x);
        }
        if x == r@ {
            assert(request_views(reqs@)[before.len() as int] == x);
        }
    }
}

/// The distinct requests of a decoded query: `;` separates specifiers, and
/// `,` separates the ranges asked for one name. Any malformed specifier or
/// empty range makes the whole query invalid.
pub fn parse_query(query: String) -> (r: Result<Vec<DepRequest>, ServerError>)
    ensures
        match r {
            Ok(reqs) => query_requests(query@) matches Some(all) && distinct_requests(reqs@)
                && request_views(reqs@).to_set() == all.to_set(),
            Err(e) => query_requests(query@) is None && e matches ServerError::InvalidPackageSpecifier,
        },
{
    let parts: Vec<String> = split_str(query.as_str(), ';');
    let ghost pv: Seq<Seq<char>> = string_views(parts@);
    let mut reqs: Vec<DepRequest> = Vec::new();
    let ghost mut acc: Seq<(Seq<char>, Seq<char>)> = Seq::empty();
    let mut i: usize = 0;
    assert(pv.take(0) =~= Seq::<Seq<char>>::empty());
    while i < parts.len()
        invariant
            i <= parts@.len(),
            pv == string_views(parts@),
            pv == split_on(query@, ';'),
            parts_requests(pv.take(i as int)) == Some(acc),
            distinct_requests(reqs@),
            forall|x: (Seq<char>, Seq<char>)| #[trigger] request_views(reqs@).contains(x) <==> acc.contains(x),
        decreases parts@.len() - i,
    {
        assert(pv[i as int] == parts@[i as int]@);
        let parsed: Result<(String, String), ServerError> = parse_package_specifier_no_validation(
            parts[i].as_str(),
        );
        let (name, range) = match parsed {
            Ok(p) => p,
            Err(e) => {
                proof {
                    lemma_parts_requests_fail(pv, i as int);
                }
                return Err(e);
            },
        };
        let ranges: Vec<String> = split_str(range.as_str(), ',');
        let ghost rv: Seq<Seq<char>> = string_views(ranges@);
        let ghost mapped: Seq<(Seq<char>, Seq<char>)> = rv.map_values(|v: Seq<char>| (name@, v));
        let mut j: usize = 0;
        while j < ranges.len()
            invariant
                i < parts@.len(),
                pv == string_views(parts@),
                pv == split_on(query@, ';'),
                parts_requests(pv.take(i as int)) == Some(acc),
                j <= ranges@.len(),
                rv == string_views(ranges@),
                rv == split_on(range@, ','),
                mapped == rv.map_values(|v: Seq<char>| (name@, v)),
                parsed_specifier(pv[i as int]) == Some((name@, range@)),
                forall|k: int| 0 <= k < j ==> #[trigger] rv[k].len() > 0,
                distinct_requests(reqs@),
                forall|x: (Seq<char>, Seq<char>)| #[trigger] request_views(reqs@).contains(x) <==> (
                acc + mapped.take(j as int)).contains(x),
            decreases ranges@.len() - j,
        {
            assert(rv[j as int] == ranges@[j as int]@);
            let version: String = ranges[j].clone();
            let n: String = name.clone();
            let d: DepRequest = match DepRequest::from_name_version(n, version) {
                Ok(d) => d,
                Err(e) => {
                    proof {
                        assert(rv[j as int].len() == 0);
                        assert(part_requests(pv[i as int]) is None);
                        lemma_parts_requests_fail(pv, i as int);
                    }
                    return Err(e);
                },
            };
            let ghost before: Seq<(Seq<char>, Seq<char>)> = acc + mapped.take(j as int);
            insert_request(&mut reqs, d);
            proof {
                assert((acc + mapped.take(j + 1)) =~= before.push((name@, rv[j as int])));
                assert forall|x: (Seq<char>, Seq<char>)| #[trigger] before.push((name@, rv[j as int])).contains(x) <==> (
                before.contains(x) || x == (name@, rv[j as int])) by {
                    if before.push((name@, rv[j as int])).contains(x) {
                        let k: int = choose|k: int| 0 <= k < before.len() + 1 && before.push((name@, rv[j as int]))[k] == x;
                        if k < before.len() {
                            assert(before[k] == x);
                        }
                    }
                    if before.contains(x) {
                        let k: int = choose|k: int| 0 <= k < before.len() && before[k] == x;
                        assert(before.push((name@, rv[j as int]))[k] == x);
                    }
                    if x == (name@, rv[j as int]) {
                        assert(before.push((name@, rv[j as int]))[before.len() as int] == x);
                    }
                }
            }
            j = j + 1;
        }
        proof {
            assert(mapped.take(ranges@.len() as int) =~= mapped);
            assert(part_requests(pv[i as int]) == Some(mapped));
            assert(pv.take(i + 1).drop_last() =~= pv.take(i as int));
            assert(pv.take(i + 1).last() == pv[i as int]);
            acc = acc + mapped;
        }
        i = i + 1;
    }
    assert(pv.take(parts@.len() as int) =~= pv);
    assert(request_views(reqs@).to_set() =~= acc.to_set());
    Ok(reqs)
}

} // verus!
