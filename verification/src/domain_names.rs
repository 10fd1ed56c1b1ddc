//! Validation and normalisation of the domain names and Hestia account names
//! that the domains control plane hands to its privileged helper.
use vstd::prelude::*;

use crate::split::{
    lemma_split_first_piece, lemma_split_last_piece, lemma_split_nonempty, split, split_char, views,
};
use crate::text::{
    alnum, ascii_lowercase, chars_of, is_ascii_alnum, is_ascii_lower, is_ascii_upper, is_space,
    lower, lower_char, owned, trim, trim_end, trim_end_char, trim_start, trimmed, trimmed_end_char,
};

verus! {

/// Why a domains operation was refused.
#[derive(Debug, Clone, Copy, PartialEq, Eq, Structural)]
pub enum DomainError {
    InvalidDomain,
    InvalidHestiaUser,
    MissingDomainsArray,
    DomainNotInInventory,
    NothingToAdopt,
}

/// The text each refusal carries.
pub open spec fn domain_error_text(e: DomainError) -> Seq<char> {
    match e {
        DomainError::InvalidDomain => "invalid domain"@,
        DomainError::InvalidHestiaUser => "invalid Hestia user"@,
        DomainError::MissingDomainsArray => "domains-hosting inventory is missing a domains array"@,
        DomainError::DomainNotInInventory => "domain is not present in the Nexus inventory"@,
        DomainError::NothingToAdopt => "no existing DNS/mail configuration was detected to adopt"@,
    }
}

impl DomainError {
    pub fn message(&self) -> (r: String)
        ensures
            r@ == domain_error_text(*self),
    {
        match self {
            DomainError::InvalidDomain => owned("invalid domain"),
            DomainError::InvalidHestiaUser => owned("invalid Hestia user"),
            DomainError::MissingDomainsArray => owned(
                "domains-hosting inventory is missing a domains array",
            ),
            DomainError::DomainNotInInventory => owned(
                "domain is not present in the Nexus inventory",
            ),
            DomainError::NothingToAdopt => owned(
                "no existing DNS/mail configuration was detected to adopt",
            ),
        }
    }
}

/// A DNS label: 1 to 63 ASCII letters, digits or hyphens, starting and ending
/// with a letter or digit.
pub open spec fn valid_label(l: Seq<char>) -> bool {
    &&& 1 <= l.len() <= 63
    &&& is_ascii_alnum(l[0])
    &&& is_ascii_alnum(l.last())
    &&& forall|i: int| 0 <= i < l.len() ==> is_ascii_alnum(#[trigger] l[i]) || l[i] == '-'
}

pub open spec fn has_char(s: Seq<char>, c: char) -> bool {
    exists|i: int| 0 <= i < s.len() && s[i] == c
}

/// A fully qualified domain name as the control plane accepts it: at most 253
/// characters, at least two dot-separated valid labels, and a top-level label of
/// at least two lower-case ASCII letters.
pub open spec fn valid_domain_name(d: Seq<char>) -> bool {
    let labels = split(d, '.');
    &&& d.len() <= 253
    &&& has_char(d, '.')
    &&& forall|i: int| 0 <= i < labels.len() ==> valid_label(#[trigger] labels[i])
    &&& labels.last().len() >= 2
    &&& forall|i: int| 0 <= i < labels.last().len() ==> is_ascii_lower(#[trigger] labels.last()[i])
}

/// The canonical spelling of a requested domain: white space trimmed, trailing
/// dots removed, ASCII lower case.
pub open spec fn normalized_domain(input: Seq<char>) -> Seq<char> {
    lower(trim_end_char(trim(input), '.'))
}

/// A Hestia account name: 1 to 64 ASCII letters, digits, `.`, `_` or `-`,
/// starting with a letter or digit.
pub open spec fn valid_hestia_user(u: Seq<char>) -> bool {
    &&& 1 <= u.len() <= 64
    &&& is_ascii_alnum(u[0])
    &&& forall|i: int|
        0 <= i < u.len() ==> is_ascii_alnum(#[trigger] u[i]) || u[i] == '.' || u[i] == '_' || u[i]
            == '-'
}

pub fn label_ok(label: &String) -> (r: bool)
    ensures
        r == valid_label(label@),
{
    let v = chars_of(label.as_str());
    if v.len() == 0 || v.len() > 63 {
        return false;
    }
    if !alnum(v[0]) || !alnum(v[v.len() - 1]) {
        return false;
    }
    let mut i: usize = 0;
    while i < v.len()
        invariant
            i <= v.len(),
            v@ == label@,
            forall|j: int| 0 <= j < i ==> is_ascii_alnum(#[trigger] v@[j]) || v@[j] == '-',
        decreases v.len() - i,
    {
        if !(alnum(v[i]) || v[i] == '-') {
            return false;
        }
        i += 1;
    }
    true
}

fn all_lower(s: &String) -> (r: bool)
    ensures
        r == forall|i: int| 0 <= i < s@.len() ==> is_ascii_lower(#[trigger] s@[i]),
{
    let v = chars_of(s.as_str());
    let mut i: usize = 0;
    while i < v.len()
        invariant
            i <= v.len(),
            v@ == s@,
            forall|j: int| 0 <= j < i ==> is_ascii_lower(#[trigger] v@[j]),
        decreases v.len() - i,
    {
        if !('a' <= v[i] && v[i] <= 'z') {
            return false;
        }
        i += 1;
    }
    true
}

fn char_in(v: &Vec<char>, c: char) -> (r: bool)
    ensures
        r == has_char(v@, c),
{
    let mut i: usize = 0;
    while i < v.len()
        invariant
            i <= v.len(),
            forall|j: int| 0 <= j < i ==> v@[j] != c,
        decreases v.len() - i,
    {
        if v[i] == c {
            return true;
        }
        i += 1;
    }
    false
}

/// Accepts exactly the names of `valid_domain_name`.
pub fn validate_domain_name(domain: &str) -> (r: Result<(), DomainError>)
    ensures
        r is Ok <==> valid_domain_name(domain@),
        r is Err ==> r == Err::<(), DomainError>(DomainError::InvalidDomain),
{
    let v = chars_of(domain);
    if v.len() > 253 || !char_in(&v, '.') {
        return Err(DomainError::InvalidDomain);
    }
    let labels = split_char(domain, '.');
    let ghost lv = views(labels@);
    assert(lv.len() == labels@.len());
    let mut i: usize = 0;
    while i < labels.len()
        invariant
            i <= labels.len(),
            lv == views(labels@),
            lv == split(domain@, '.'),
            forall|j: int| 0 <= j < i ==> valid_label(#[trigger] lv[j]),
        decreases labels.len() - i,
    {
        if !label_ok(&labels[i]) {
            assert(lv[i as int] == labels@[i as int]@);
            return Err(DomainError::InvalidDomain);
        }
        assert(lv[i as int] == labels@[i as int]@);
        i += 1;
    }
    proof {
        lemma_split_nonempty(domain@, '.', Seq::empty());
    }
    let tld = &labels[labels.len() - 1];
    assert(lv.last() == tld@);
    if chars_of(tld.as_str()).len() < 2 || !all_lower(tld) {
        return Err(DomainError::InvalidDomain);
    }
    Ok(())
}

/// Trims, drops trailing dots, lower-cases and validates a requested domain.
pub fn normalize_domain(input: &str) -> (r: Result<String, DomainError>)
    ensures
        r is Ok <==> valid_domain_name(normalized_domain(input@)),
        r matches Ok(d) ==> d@ == normalized_domain(input@),
        r is Err ==> r == Err::<String, DomainError>(DomainError::InvalidDomain),
{
    let t = trimmed(input);
    let t = trimmed_end_char(t.as_str(), '.');
    let domain = ascii_lowercase(t.as_str());
    match validate_domain_name(domain.as_str()) {
        Ok(()) => Ok(domain),
        Err(e) => Err(e),
    }
}

/// Accepts exactly the names of `valid_hestia_user`.
pub fn validate_hestia_user(user: &str) -> (r: Result<(), DomainError>)
    ensures
        r is Ok <==> valid_hestia_user(user@),
        r is Err ==> r == Err::<(), DomainError>(DomainError::InvalidHestiaUser),
{
    let v = chars_of(user);
    if v.len() == 0 || v.len() > 64 {
        return Err(DomainError::InvalidHestiaUser);
    }
    if !alnum(v[0]) {
        return Err(DomainError::InvalidHestiaUser);
    }
    let mut i: usize = 0;
    while i < v.len()
        invariant
            i <= v.len(),
            v@ == user@,
            forall|j: int|
                0 <= j < i ==> is_ascii_alnum(#[trigger] v@[j]) || v@[j] == '.' || v@[j] == '_'
                    || v@[j] == '-',
        decreases v.len() - i,
    {
        let c = v[i];
        if !(alnum(c) || c == '.' || c == '_' || c == '-') {
            return Err(DomainError::InvalidHestiaUser);
        }
        i += 1;
    }
    Ok(())
}


/// The lenient acceptance of a requested domain: after normalisation it is
/// not empty and holds neither `/` nor a space.
pub open spec fn lenient_domain_ok(d: Seq<char>) -> bool {
    d.len() > 0 && !has_char(d, '/') && !has_char(d, ' ')
}

/// Trims, drops trailing dots and lower-cases a requested domain, refusing
/// only an empty result or one with `/` or a space (see `lenient_domain_ok`).
pub fn normalize_domain_leniently(input: &str) -> (r: Result<String, DomainError>)
    ensures
        r is Ok <==> lenient_domain_ok(normalized_domain(input@)),
        r matches Ok(d) ==> d@ == normalized_domain(input@),
        r is Err ==> r == Err::<String, DomainError>(DomainError::InvalidDomain),
{
    let t = trimmed(input);
    let t = trimmed_end_char(t.as_str(), '.');
    let domain = ascii_lowercase(t.as_str());
    let v = chars_of(domain.as_str());
    if v.len() == 0 {
        return Err(DomainError::InvalidDomain);
    }
    let mut i: usize = 0;
    while i < v.len()
        invariant
            i <= v.len(),
            v@ == domain@,
            domain@ == normalized_domain(input@),
            forall|j: int| 0 <= j < i ==> v@[j] != '/' && v@[j] != ' ',
        decreases v.len() - i,
    {
        if v[i] == '/' || v[i] == ' ' {
            assert(domain@[i as int] == v@[i as int]);
            return Err(DomainError::InvalidDomain);
        }
        i += 1;
    }
    Ok(domain)
}

/// An accepted name begins and ends with a letter or digit.
proof fn lemma_valid_domain_ends(d: Seq<char>)
    requires
        valid_domain_name(d),
    ensures
        d.len() > 0,
        is_ascii_alnum(d[0]),
        is_ascii_alnum(d.last()),
{
    let labels = split(d, '.');
    lemma_split_nonempty(d, '.', Seq::empty());
    assert(valid_label(labels[0]));
    assert(valid_label(labels.last()));
    if d.len() == 0 {
        assert(labels =~= seq![Seq::<char>::empty()]);
    } else if d[0] == '.' {
        assert(labels[0] == Seq::<char>::empty());
    } else {
        lemma_split_first_piece(d.drop_first(), '.', seq![d[0]]);
        assert(labels == crate::split::split_from(d.drop_first(), '.', seq![d[0]]));
    }
    lemma_split_last_piece(d, '.', Seq::empty());
}

proof fn lemma_lower_idempotent(s: Seq<char>)
    ensures
        lower(lower(s)) == lower(s),
{
    assert forall|i: int| 0 <= i < s.len() implies lower_char(lower_char(s[i])) == lower_char(s[i]) by {
        let c = s[i];
        if is_ascii_upper(c) {
            vstd::utf8::char_u32_cast(c, c as u32);
            assert(!is_ascii_upper(lower_char(c)));
        }
    }
    assert(lower(lower(s)) =~= lower(s));
}

/// Normalising is stable: a name that normalises to an accepted domain
/// normalises to itself, so the canonical spelling is a fixed point.
pub proof fn lemma_normalized_domain_is_stable(input: Seq<char>)
    requires
        valid_domain_name(normalized_domain(input)),
    ensures
        normalized_domain(normalized_domain(input)) == normalized_domain(input),
        valid_domain_name(normalized_domain(normalized_domain(input))),
{
    let d = normalized_domain(input);
    lemma_valid_domain_ends(d);
    assert(!is_space(d[0]) && !is_space(d.last())) by {
        vstd::utf8::char_u32_cast(d[0], d[0] as u32);
        vstd::utf8::char_u32_cast(d.last(), d.last() as u32);
    }
    assert(trim_start(d) == d);
    assert(trim_end(d) == d);
    assert(trim(d) == d);
    assert(trim_end_char(d, '.') == d);
    lemma_lower_idempotent(trim_end_char(trim(input), '.'));
}

} // verus!
