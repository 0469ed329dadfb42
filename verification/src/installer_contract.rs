//! Version checks against the installer's compatibility contract.
//!
//! Versions are three dot-separated decimal components, compared in order.

use vstd::prelude::*;

use crate::midi_endpoint::chars_of;

verus! {

/// Why a decimal component did not read as a `u64`.
#[derive(Clone, Copy, Debug, PartialEq, Eq, Structural)]
pub enum NumberError {
    Empty,
    InvalidDigit,
    TooLarge,
}

/// Why a version was refused.
#[derive(Clone, Copy, Debug, PartialEq, Eq, Structural)]
pub enum VersionError {
    MinorMissing,
    PatchMissing,
    Number(NumberError),
    TooManyComponents,
}

impl VersionError {
    pub open spec fn spec_message(self) -> Seq<char> {
        match self {
            VersionError::MinorMissing => "version minor is missing"@,
            VersionError::PatchMissing => "version patch is missing"@,
            VersionError::Number(NumberError::Empty) => "cannot parse integer from empty string"@,
            VersionError::Number(NumberError::InvalidDigit) => "invalid digit found in string"@,
            VersionError::Number(NumberError::TooLarge) => "number too large to fit in target type"@,
            VersionError::TooManyComponents => "version must contain exactly three numeric components"@,
        }
    }

    pub fn message(&self) -> (message: String)
        ensures
            message@ == self.spec_message(),
    {
        let text = match *self {
            VersionError::MinorMissing => "version minor is missing",
            VersionError::PatchMissing => "version patch is missing",
            VersionError::Number(NumberError::Empty) => "cannot parse integer from empty string",
            VersionError::Number(NumberError::InvalidDigit) => "invalid digit found in string",
            VersionError::Number(NumberError::TooLarge) => "number too large to fit in target type",
            VersionError::TooManyComponents => "version must contain exactly three numeric components",
        };
        String::from_str(text)
    }
}

pub open spec fn is_digit(c: char) -> bool {
    '0' <= c && c <= '9'
}

/// Reading the first `n` characters of `digits` from the left as a decimal
/// `u64`: the first non-digit, or the first digit that takes the value past
/// `u64::MAX`, stops the reading.
pub open spec fn read_digits(digits: Seq<char>, n: int) -> Result<nat, NumberError>
    decreases n,
{
    if n <= 0 {
        Ok(0)
    } else {
        match read_digits(digits, n - 1) {
            Err(error) => Err(error),
            Ok(value) => if !is_digit(digits[n - 1]) {
                Err(NumberError::InvalidDigit)
            } else if value * 10 + (digits[n - 1] as int - '0' as int) > u64::MAX {
                Err(NumberError::TooLarge)
            } else {
                Ok((value * 10 + (digits[n - 1] as int - '0' as int)) as nat)
            },
        }
    }
}

/// A decimal `u64` as `str::parse` reads it: an optional leading `+`, then
/// one or more ASCII digits.
pub open spec fn spec_parse_u64(text: Seq<char>) -> Result<nat, NumberError> {
    if text.len() == 0 {
        Err(NumberError::Empty)
    } else if text.len() == 1 && (text[0] == '+' || text[0] == '-') {
        Err(NumberError::InvalidDigit)
    } else if text[0] == '+' {
        read_digits(text.drop_first(), text.len() - 1)
    } else {
        read_digits(text, text.len() as int)
    }
}

/// The place of the first `.` at or after `from`, or the length.
pub open spec fn next_dot(text: Seq<char>, from: int) -> int
    decreases text.len() - from,
{
    if from >= text.len() {
        text.len() as int
    } else if text[from] == '.' {
        from
    } else {
        next_dot(text, from + 1)
    }
}

/// A version read as `major.minor.patch`, component by component from the left.
pub open spec fn spec_parse_version(text: Seq<char>) -> Result<(u64, u64, u64), VersionError> {
    let major_end = next_dot(text, 0);
    match spec_parse_u64(text.subrange(0, major_end)) {
        Err(error) => Err(VersionError::Number(error)),
        Ok(major) => if major_end >= text.len() {
            Err(VersionError::MinorMissing)
        } else {
            let minor_end = next_dot(text, major_end + 1);
            match spec_parse_u64(text.subrange(major_end + 1, minor_end)) {
                Err(error) => Err(VersionError::Number(error)),
                Ok(minor) => if minor_end >= text.len() {
                    Err(VersionError::PatchMissing)
                } else {
                    let patch_end = next_dot(text, minor_end + 1);
                    match spec_parse_u64(text.subrange(minor_end + 1, patch_end)) {
                        Err(error) => Err(VersionError::Number(error)),
                        Ok(patch) => if patch_end < text.len() {
                            Err(VersionError::TooManyComponents)
                        } else {
                            Ok((major as u64, minor as u64, patch as u64))
                        },
                    }
                },
            }
        },
    }
}

proof fn lemma_next_dot_bounds(text: Seq<char>, from: int)
    requires
        0 <= from <= text.len(),
    ensures
        from <= next_dot(text, from) <= text.len(),
        next_dot(text, from) < text.len() ==> text[next_dot(text, from)] == '.',
        forall|k: int| from <= k < next_dot(text, from) ==> text[k] != '.',
    decreases text.len() - from,
{
    if from < text.len() && text[from] != '.' {
        lemma_next_dot_bounds(text, from + 1);
    }
}

fn find_dot(chars: &Vec<char>, from: usize) -> (end: usize)
    requires
        from <= chars@.len(),
    ensures
        end == next_dot(chars@, from as int),
{
    let mut k = from;
    while k < chars.len() && chars[k] != '.'
        invariant
            from <= k <= chars@.len(),
            next_dot(chars@, k as int) == next_dot(chars@, from as int),
        decreases chars@.len() - k,
    {
        k += 1;
    }
    k
}

/// Read `chars[start..end]` as a decimal `u64`.
pub(crate) fn parse_u64(chars: &Vec<char>, start: usize, end: usize) -> (result: Result<u64, NumberError>)
    requires
        start <= end <= chars@.len(),
    ensures
        match spec_parse_u64(chars@.subrange(start as int, end as int)) {
            Ok(value) => result == Ok::<u64, NumberError>(value as u64),
            Err(error) => result == Err::<u64, NumberError>(error),
        },
{
    let ghost text = chars@.subrange(start as int, end as int);
    if start == end {
        return Err(NumberError::Empty);
    }
    if end - start == 1 && (chars[start] == '+' || chars[start] == '-') {
        return Err(NumberError::InvalidDigit);
    }
    let first = if chars[start] == '+' {
        start + 1
    } else {
        start
    };
    let ghost digits = chars@.subrange(first as int, end as int);
    assert(text[0] == '+' ==> text.drop_first() =~= digits);
    assert(text[0] != '+' ==> text =~= digits);
    assert(spec_parse_u64(text) == read_digits(digits, digits.len() as int));
    let mut value: u64 = 0;
    let mut i = first;
    while i < end
        invariant
            first <= i <= end <= chars@.len(),
            digits == chars@.subrange(first as int, end as int),
            spec_parse_u64(chars@.subrange(start as int, end as int)) == read_digits(digits, digits.len() as int),
            read_digits(digits, i - first) == Ok::<nat, NumberError>(value as nat),
        decreases end - i,
    {
        let c = chars[i];
        assert(digits[i - first] == c);
        if !('0' <= c && c <= '9') {
            proof {
                lemma_read_digits_stops(digits, (i - first + 1) as int, digits.len() as int);
            }
            return Err(NumberError::InvalidDigit);
        }
        let digit: u64 = (c as u32 - '0' as u32) as u64;
        if value > (u64::MAX - digit) / 10 {
            proof {
                assert(value * 10 + digit > u64::MAX) by (nonlinear_arith)
                    requires
                        value > (u64::MAX - digit) / 10,
                        digit <= 9,
                ;
                lemma_read_digits_stops(digits, (i - first + 1) as int, digits.len() as int);
            }
            return Err(NumberError::TooLarge);
        }
        assert(value * 10 + digit <= u64::MAX) by (nonlinear_arith)
            requires
                value <= (u64::MAX - digit) / 10,
                digit <= 9,
        ;
        value = value * 10 + digit;
        i += 1;
    }
    Ok(value)
}

/// A reading that has failed stays failed as more characters are read.
proof fn lemma_read_digits_stops(digits: Seq<char>, m: int, n: int)
    requires
        0 <= m <= n,
        read_digits(digits, m) is Err,
    ensures
        read_digits(digits, n) == read_digits(digits, m),
    decreases n - m,
{
    if m < n {
        lemma_read_digits_stops(digits, m, n - 1);
    }
}

/// Read a version `major.minor.patch`.
pub fn parse_version(version: &str) -> (result: Result<(u64, u64, u64), VersionError>)
    ensures
        result == spec_parse_version(version@),
{
    let chars = chars_of(version);
    let ghost text = chars@;
    let major_end = find_dot(&chars, 0);
    proof {
        lemma_next_dot_bounds(text, 0);
    }
    let major = match parse_u64(&chars, 0, major_end) {
        Ok(value) => value,
        Err(error) => return Err(VersionError::Number(error)),
    };
    if major_end >= chars.len() {
        return Err(VersionError::MinorMissing);
    }
    let minor_end = find_dot(&chars, major_end + 1);
    proof {
        lemma_next_dot_bounds(text, major_end + 1);
    }
    let minor = match parse_u64(&chars, major_end + 1, minor_end) {
        Ok(value) => value,
        Err(error) => return Err(VersionError::Number(error)),
    };
    if minor_end >= chars.len() {
        return Err(VersionError::PatchMissing);
    }
    let patch_end = find_dot(&chars, minor_end + 1);
    proof {
        lemma_next_dot_bounds(text, minor_end + 1);
    }
    let patch = match parse_u64(&chars, minor_end + 1, patch_end) {
        Ok(value) => value,
        Err(error) => return Err(VersionError::Number(error)),
    };
    if patch_end < chars.len() {
        return Err(VersionError::TooManyComponents);
    }
    Ok((major, minor, patch))
}

/// Versions in order: by major, then minor, then patch.
pub open spec fn version_less(a: (u64, u64, u64), b: (u64, u64, u64)) -> bool {
    a.0 < b.0 || (a.0 == b.0 && (a.1 < b.1 || (a.1 == b.1 && a.2 < b.2)))
}

fn less(a: (u64, u64, u64), b: (u64, u64, u64)) -> (result: bool)
    ensures
        result == version_less(a, b),
{
    a.0 < b.0 || (a.0 == b.0 && (a.1 < b.1 || (a.1 == b.1 && a.2 < b.2)))
}

/// Whether `version` lies in `minimum..maximum`, read in that order; the
/// maximum only when `version` is not below `minimum`.
pub open spec fn spec_version_supported(version: Seq<char>, minimum: Seq<char>, maximum: Seq<char>) -> Result<bool, VersionError> {
    match (spec_parse_version(version), spec_parse_version(minimum)) {
        (Err(error), _) => Err(error),
        (Ok(_), Err(error)) => Err(error),
        (Ok(v), Ok(low)) => if version_less(v, low) {
            Ok(false)
        } else {
            match spec_parse_version(maximum) {
                Err(error) => Err(error),
                Ok(high) => Ok(version_less(v, high)),
            }
        },
    }
}

/// Whether `version` lies in `minimum..maximum`. The versions are read in
/// that order, and `maximum` only when `version` is not below `minimum`.
pub fn version_supported(version: &str, minimum: &str, maximum: &str) -> (result: Result<bool, VersionError>)
    ensures
        result == spec_version_supported(version@, minimum@, maximum@),
{
    let v = match parse_version(version) {
        Ok(v) => v,
        Err(error) => return Err(error),
    };
    let low = match parse_version(minimum) {
        Ok(low) => low,
        Err(error) => return Err(error),
    };
    if less(v, low) {
        return Ok(false);
    }
    let high = match parse_version(maximum) {
        Ok(high) => high,
        Err(error) => return Err(error),
    };
    Ok(less(v, high))
}

/// A component of the compatibility contract: its name and the runtime
/// bounds it sets, if any.
pub struct ContractComponent {
    pub name: String,
    pub runtime_minimum: Option<String>,
    pub runtime_maximum_exclusive: Option<String>,
}

/// Why the compatibility contract gives no answer for a sampler version.
#[derive(Clone, Copy, Debug, PartialEq, Eq, Structural)]
pub enum ContractError {
    UnsupportedSchema,
    NoSampler,
    MinimumMissing,
    MaximumMissing,
    Version(VersionError),
}

impl ContractError {
    pub open spec fn spec_message(self) -> Seq<char> {
        match self {
            ContractError::UnsupportedSchema => "unsupported compatibility contract schema"@,
            ContractError::NoSampler => "compatibility contract has no SHR Sampler component"@,
            ContractError::MinimumMissing => "SHR Sampler runtime minimum is missing"@,
            ContractError::MaximumMissing => "SHR Sampler runtime maximum is missing"@,
            ContractError::Version(error) => error.spec_message(),
        }
    }

    pub fn message(&self) -> (message: String)
        ensures
            message@ == self.spec_message(),
    {
        match *self {
            ContractError::UnsupportedSchema => String::from_str("unsupported compatibility contract schema"),
            ContractError::NoSampler => String::from_str("compatibility contract has no SHR Sampler component"),
            ContractError::MinimumMissing => String::from_str("SHR Sampler runtime minimum is missing"),
            ContractError::MaximumMissing => String::from_str("SHR Sampler runtime maximum is missing"),
            ContractError::Version(error) => error.message(),
        }
    }
}

/// The first of the first `n` components that is the SHR Sampler.
pub open spec fn sampler_index(components: Seq<ContractComponent>, n: int) -> Option<int>
    decreases n,
{
    if n <= 0 {
        None
    } else {
        match sampler_index(components, n - 1) {
            Some(i) => Some(i),
            None => if components[n - 1].name@ == "shr-sampler"@ {
                Some(n - 1)
            } else {
                None
            },
        }
    }
}

/// The contract's answer for a sampler `version`: the schema must be the
/// first, the first SHR Sampler component must set both runtime bounds, and
/// `version` must lie between them.
pub open spec fn spec_sampler_version_supported(
    schema_version: u32,
    components: Seq<ContractComponent>,
    version: Seq<char>,
) -> Result<bool, ContractError> {
    if schema_version != 1 {
        Err(ContractError::UnsupportedSchema)
    } else {
        match sampler_index(components, components.len() as int) {
            None => Err(ContractError::NoSampler),
            Some(i) => match components[i].runtime_minimum {
                None => Err(ContractError::MinimumMissing),
                Some(minimum) => match components[i].runtime_maximum_exclusive {
                    None => Err(ContractError::MaximumMissing),
                    Some(maximum) => match spec_version_supported(version, minimum@, maximum@) {
                        Ok(supported) => Ok(supported),
                        Err(error) => Err(ContractError::Version(error)),
                    },
                },
            },
        }
    }
}

/// Whether the compatibility contract, with schema `schema_version` and
/// `components`, supports SHR Sampler `version`.
pub fn shr_sampler_version_supported(schema_version: u32, components: &Vec<ContractComponent>, version: &str) -> (result:
    Result<bool, ContractError>)
    ensures
        result == spec_sampler_version_supported(schema_version, components@, version@),
{
    if schema_version != 1 {
        return Err(ContractError::UnsupportedSchema);
    }
    let sampler_name = String::from_str("shr-sampler");
    let mut i: usize = 0;
    while i < components.len() && components[i].name != sampler_name
        invariant
            i <= components@.len(),
            sampler_name@ == "shr-sampler"@,
            sampler_index(components@, i as int) is None,
        decreases components@.len() - i,
    {
        i += 1;
    }
    if i == components.len() {
        return Err(ContractError::NoSampler);
    }
    proof {
        assert(sampler_index(components@, i + 1) == Some(i as int));
        lemma_sampler_index_stays(components@, i + 1, components@.len() as int);
    }
    let minimum = match &components[i].runtime_minimum {
        Some(minimum) => minimum.as_str(),
        None => {
            return Err(ContractError::MinimumMissing);
        },
    };
    let maximum = match &components[i].runtime_maximum_exclusive {
        Some(maximum) => maximum.as_str(),
        None => {
            return Err(ContractError::MaximumMissing);
        },
    };
    match version_supported(version, minimum, maximum) {
        Ok(supported) => Ok(supported),
        Err(error) => Err(ContractError::Version(error)),
    }
}

/// Once found, the first SHR Sampler stays the first as more components are searched.
proof fn lemma_sampler_index_stays(components: Seq<ContractComponent>, m: int, n: int)
    requires
        m <= n,
        sampler_index(components, m) is Some,
    ensures
        sampler_index(components, n) == sampler_index(components, m),
    decreases n - m,
{
    if m < n {
        lemma_sampler_index_stays(components, m, n - 1);
    }
}

} // verus!
