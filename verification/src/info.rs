//! Server deployment information and the retrieval-strategy decision.
//!
//! The strategy is picked once per load: the bulk dump protocol wherever
//! the server supports it, the streaming query-cursor protocol as the
//! fallback for single servers below the supporting version.

use vstd::prelude::*;

verus! {

/// The server's version report.
pub struct VersionInformation {
    pub server: String,
    pub license: String,
    pub version: String,
}

/// How the database is deployed.
#[derive(Debug, PartialEq, Eq, Structural, Clone, Copy)]
pub enum DeploymentType {
    Cluster,
    Single,
}

/// The deployment section of the server's support report.
#[derive(Debug, PartialEq, Eq, Structural, Clone, Copy)]
pub struct DeploymentInfo {
    pub deployment_type: DeploymentType,
}

/// The server's support report.
#[derive(Debug, PartialEq, Eq, Structural, Clone, Copy)]
pub struct SupportInfo {
    pub deployment: DeploymentInfo,
}

/// Which retrieval protocol a load uses.
#[derive(Debug, PartialEq, Eq, Structural, Clone, Copy)]
pub enum LoadStrategy {
    Dump,
    Aql,
}

/// Why the server's version report was rejected.
#[derive(Debug, PartialEq, Eq, Structural, Clone, Copy)]
pub enum InfoError {
    MalformedVersion,
}

/// The byte value of `.`, which separates version components.
pub const DOT: u8 = 46;

/// Whether the byte is a decimal digit.
pub open spec fn is_digit(b: u8) -> bool {
    48 <= b <= 57
}

/// The number a run of decimal digits denotes.
pub open spec fn digits_value(s: Seq<u8>) -> int
    decreases s.len(),
{
    if s.len() == 0 {
        0
    } else {
        digits_value(s.drop_last()) * 10 + (s.last() - 48)
    }
}

/// What it takes for a byte string to parse as an unsigned number the way
/// the standard parser reads it: an optional plus sign, then at least one
/// digit, with a value in range.
pub open spec fn all_digits(digits: Seq<u8>) -> bool {
    forall|i: int| 0 <= i < digits.len() ==> is_digit(#[trigger] digits[i])
}

pub open spec fn parses_digits(digits: Seq<u8>) -> bool {
    digits.len() > 0 && all_digits(digits) && digits_value(digits) <= 255
}

pub open spec fn parses_as_u8(s: Seq<u8>) -> bool {
    parses_digits(
        if s.len() > 0 && s[0] == 43 {
            s.skip(1)
        } else {
            s
        },
    )
}

/// The value such a byte string denotes.
pub open spec fn u8_value(s: Seq<u8>) -> int {
    if s.len() > 0 && s[0] == 43 {
        digits_value(s.skip(1))
    } else {
        digits_value(s)
    }
}

/// Parse an unsigned 8-bit number: an optional plus sign, then at least
/// one digit, with a value at most 255.
#[verifier::loop_isolation(false)]
pub fn parse_u8(s: &Vec<u8>) -> (r: Option<u8>)
    ensures
        r is Some <==> parses_as_u8(s@),
        r matches Some(v) ==> v == u8_value(s@),
{
    let n = s.len();
    let start: usize = if n > 0 && s[0] == 43 {
        1
    } else {
        0
    };
    if start >= n {
        return None;
    }
    let ghost digits = if s@.len() > 0 && s@[0] == 43 {
        s@.skip(1)
    } else {
        s@
    };
    let mut acc: u32 = 0;
    let mut i: usize = start;
    while i < n
        invariant
            start <= i <= n,
            acc == digits_value(s@.subrange(start as int, i as int)),
            acc <= 255,
            forall|j: int| start <= j < i ==> is_digit(#[trigger] s@[j]),
        decreases n - i,
    {
        let b = s[i];
        if b < 48 || b > 57 {
            proof {
                assert(digits == (if s@.len() > 0 && s@[0] == 43 {
                    s@.skip(1)
                } else {
                    s@
                }));
                assert(digits[i - start] == s@[i as int]);
                assert(0 <= i - start < digits.len());
                if parses_as_u8(s@) {
                    assert(parses_digits(digits));
                    assert(is_digit(digits[i - start]));
                }
            }
            return None;
        }
        acc = acc * 10 + ((b - 48) as u32);
        proof {
            assert(s@.subrange(start as int, (i + 1) as int).drop_last() =~= s@.subrange(
                start as int,
                i as int,
            ));
            assert(s@.subrange(start as int, (i + 1) as int).last() == b);
        }
        if acc > 255 {
            proof {
                assert(digits.take(i + 1 - start) =~= s@.subrange(start as int, (i + 1) as int));
                lemma_digits_monotone(digits, i + 1 - start);
                if parses_as_u8(s@) {
                    assert(parses_digits(digits));
                    assert(all_digits(digits));
                    assert(digits_value(digits) > 255);
                    assert(digits_value(digits) <= 255);
                }
            }
            return None;
        }
        i += 1;
    }
    proof {
        assert(digits =~= s@.subrange(start as int, n as int));
        assert forall|j: int| 0 <= j < digits.len() implies is_digit(#[trigger] digits[j]) by {
            assert(digits[j] == s@[j + start]);
        }
    }
    Some(acc as u8)
}

/// A longer digit run denotes at least as large a number, so an overflowing
/// prefix settles the whole string.
proof fn lemma_digits_monotone(s: Seq<u8>, k: int)
    requires
        0 <= k <= s.len(),
        digits_value(s.take(k)) > 255,
    ensures
        all_digits(s) ==> digits_value(s) > 255,
    decreases s.len() - k,
{
    if k < s.len() {
        assert(s.take(k + 1).drop_last() =~= s.take(k));
        assert(s.take(k + 1).last() == s[k]);
        if all_digits(s) {
            assert(is_digit(s[k]));
            assert(digits_value(s.take(k + 1)) == digits_value(s.take(k)) * 10 + (s[k] - 48));
            assert(digits_value(s.take(k + 1)) > 255);
        }
        lemma_digits_monotone(s, k + 1);
    } else {
        assert(s.take(k) =~= s);
    }
}

/// A parsed `major.minor` version.
#[derive(Debug, PartialEq, Eq, Structural, Clone, Copy)]
pub struct ParsedVersion {
    pub major: u8,
    pub minor: u8,
}

/// Positions of the first two dots of a version byte string, when it has
/// at least two.
pub open spec fn spec_first_dot(s: Seq<u8>) -> int {
    crate::util::first_byte_index(s, DOT)
}

/// What it takes for a version byte string to be accepted: at least three
/// dot-separated parts, the first two parsing as numbers.
pub open spec fn version_ok(s: Seq<u8>) -> bool {
    let d1 = spec_first_dot(s);
    d1 < s.len() && {
        let rest = s.skip(d1 + 1);
        let d2 = spec_first_dot(rest);
        d2 < rest.len() && parses_as_u8(s.take(d1)) && parses_as_u8(rest.take(d2))
    }
}

/// The major and minor numbers of an accepted version byte string.
pub open spec fn spec_version_of(s: Seq<u8>) -> ParsedVersion {
    let d1 = spec_first_dot(s);
    let rest = s.skip(d1 + 1);
    let d2 = spec_first_dot(rest);
    (ParsedVersion {
        major: u8_value(s.take(d1)) as u8,
        minor: u8_value(rest.take(d2)) as u8,
    })
}

/// Parse a server version of the form `major.minor.patch...`: rejected
/// when it has fewer than three dot-separated parts or the first two do
/// not read as numbers, as a malformed version is fatal.
pub fn parse_version(version: &Vec<u8>) -> (r: Result<ParsedVersion, InfoError>)
    ensures
        r is Ok <==> version_ok(version@),
        r matches Ok(v) ==> v == spec_version_of(version@),
        r matches Err(e) ==> e == InfoError::MalformedVersion,
{
    proof {
        crate::util::lemma_first_byte_index(version@, DOT);
    }
    let d1 = match crate::util::find_byte(version, DOT) {
        Some(p) => p,
        None => {
            return Err(InfoError::MalformedVersion);
        },
    };
    let n = version.len();
    let rest = crate::util::bytes_range(version, d1 + 1, n);
    proof {
        crate::util::lemma_first_byte_index(rest@, DOT);
    }
    let d2 = match crate::util::find_byte(&rest, DOT) {
        Some(p) => p,
        None => {
            return Err(InfoError::MalformedVersion);
        },
    };
    let major_part = crate::util::bytes_range(version, 0, d1);
    let minor_part = crate::util::bytes_range(&rest, 0, d2);
    proof {
        assert(major_part@ =~= version@.take(spec_first_dot(version@)));
        assert(rest@ =~= version@.skip(spec_first_dot(version@) + 1));
        assert(minor_part@ =~= rest@.take(spec_first_dot(rest@)));
    }
    let major = match parse_u8(&major_part) {
        Some(v) => v,
        None => {
            return Err(InfoError::MalformedVersion);
        },
    };
    let minor = match parse_u8(&minor_part) {
        Some(v) => v,
        None => {
            return Err(InfoError::MalformedVersion);
        },
    };
    Ok((ParsedVersion { major, minor }))
}

/// Whether the server supports the bulk dump protocol: from 3.12 on, and
/// already at 3.11 for clusters.
pub fn dump_support_enabled(v: ParsedVersion, is_cluster: bool) -> (r: bool)
    ensures
        r == (v.major == 3 && (v.minor >= 12 || (is_cluster && v.minor == 11))),
{
    v.major == 3 && (v.minor >= 12 || (is_cluster && v.minor == 11))
}

/// Pick the retrieval strategy: the dump protocol unless a single server
/// lacks it, in which case the query-cursor fallback.
pub fn identify_load_strategy(dump_support: bool, deployment_type: DeploymentType) -> (r:
    LoadStrategy)
    ensures
        r == (if !dump_support && deployment_type == DeploymentType::Single {
            LoadStrategy::Aql
        } else {
            LoadStrategy::Dump
        }),
{
    if !dump_support && deployment_type == DeploymentType::Single {
        LoadStrategy::Aql
    } else {
        LoadStrategy::Dump
    }
}

/// The whole decision: parse the version and pick the strategy, a
/// malformed version being fatal.
pub fn select_load_strategy(version: &Vec<u8>, deployment_type: DeploymentType) -> (r: Result<
    LoadStrategy,
    InfoError,
>)
    ensures
        r is Ok <==> version_ok(version@),
        r matches Ok(s) ==> s == (if !(spec_version_of(version@).major == 3 && (spec_version_of(
            version@,
        ).minor >= 12 || (deployment_type == DeploymentType::Cluster && spec_version_of(
            version@,
        ).minor == 11))) && deployment_type == DeploymentType::Single {
            LoadStrategy::Aql
        } else {
            LoadStrategy::Dump
        }),
{
    let v = match parse_version(version) {
        Ok(v) => v,
        Err(e) => {
            return Err(e);
        },
    };
    let is_cluster = deployment_type == DeploymentType::Cluster;
    let support = dump_support_enabled(v, is_cluster);
    Ok(identify_load_strategy(support, deployment_type))
}


/// The error document the database returns on a failed request.
pub struct ArangoDBError {
    pub error: bool,
    pub error_num: i64,
    pub error_message: String,
    pub code: i64,
}

/// Whether a response status is the expected one; anything else turns the
/// parsed error document into a fatal protocol error.
pub fn response_is_expected(status: u16, expected: u16) -> (r: bool)
    ensures
        r == (status == expected),
{
    status == expected
}

} // verus!
