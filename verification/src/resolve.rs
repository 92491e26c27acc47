//! From a fully qualified name to its zone and the subdomain within it.
//!
//! The public suffix list decides where a name splits; it is consulted
//! through an extractor that the caller brings. What the extractor makes
//! of a name is not worked out here: it has a name, and the zone of a name
//! is stated over it.

use tldextract::{TldExtractError, TldExtractor};
use vstd::prelude::*;
use vstd::string::StringExecFns;

verus! {

/// `tldextract::TldExtractor`: a public suffix list, ready to split names.
/// Nothing of what it holds is known here.
#[verifier::external_type_specification]
#[verifier::external_body]
pub struct ExTldExtractor(tldextract::TldExtractor);

/// `tldextract::TldExtractError`: why a name could not be taken apart. It
/// is carried along and never looked into.
#[verifier::external_type_specification]
#[verifier::external_body]
pub struct ExTldExtractError(tldextract::TldExtractError);

/// The parts of a name, as the suffix list splits it. A part that the
/// list does not give is missing.
#[derive(Debug, PartialEq, Eq)]
pub struct Extracted {
    pub domain: Option<String>,
    pub subdomain: Option<String>,
    pub suffix: Option<String>,
}

/// The parts of a name, as text.
pub struct ExtractedView {
    pub domain: Option<Seq<char>>,
    pub subdomain: Option<Seq<char>>,
    pub suffix: Option<Seq<char>>,
}

/// The text of an optional string.
pub open spec fn text_of(s: Option<String>) -> Option<Seq<char>> {
    match s {
        Some(s) => Some(s@),
        None => None,
    }
}

impl View for Extracted {
    type V = ExtractedView;

    open spec fn view(&self) -> ExtractedView {
        ExtractedView {
            domain: text_of(self.domain),
            subdomain: text_of(self.subdomain),
            suffix: text_of(self.suffix),
        }
    }
}

/// Why a name has no zone.
#[derive(Debug)]
pub enum ResolveError {
    /// The name could not be taken apart.
    Extract(TldExtractError),
    /// The name has no registrable domain.
    NoDomain,
    /// The name has no public suffix.
    NoSuffix,
}

/// The subdomain that stands for the zone itself.
pub open spec fn apex() -> Seq<char> {
    seq!['@']
}

/// The name of the zone: the domain, a dot, the suffix.
pub open spec fn zone_name(domain: Seq<char>, suffix: Seq<char>) -> Seq<char> {
    domain + seq!['.'] + suffix
}

/// The zone and the subdomain that the parts of a name give, where the
/// domain and the suffix are there.
pub open spec fn resolution(parts: ExtractedView) -> Option<(Seq<char>, Seq<char>)> {
    if parts.domain is Some && parts.suffix is Some {
        Some(
            (
                zone_name(parts.domain->0, parts.suffix->0),
                match parts.subdomain {
                    Some(subdomain) => subdomain,
                    None => apex(),
                },
            ),
        )
    } else {
        None
    }
}

/// What [`zone_and_subdomain`] returns, as text.
pub open spec fn resolved(r: Result<(String, String), ResolveError>) -> Option<
    (Seq<char>, Seq<char>),
> {
    match r {
        Ok((zone, subdomain)) => Some((zone@, subdomain@)),
        Err(_) => None,
    }
}

/// The public suffixes that an extractor holds: the list it was built
/// with.
pub uninterp spec fn suffix_list(tld_ext: TldExtractor) -> Set<Seq<char>>;

/// Whether an extractor was built to take the last label of a name for
/// its suffix where its list knows none.
pub uninterp spec fn naive_mode(tld_ext: TldExtractor) -> bool;

/// What `TldExtractor::extract` makes of `input` with these suffixes and
/// this mode: the three parts of the name, or nothing where it gives an
/// error.
pub uninterp spec fn extracted(suffixes: Set<Seq<char>>, naive: bool, input: Seq<char>) -> Option<
    ExtractedView,
>;

/// What the extractor makes of `input`.
pub open spec fn extraction_of(tld_ext: TldExtractor, input: Seq<char>) -> Option<ExtractedView> {
    extracted(suffix_list(tld_ext), naive_mode(tld_ext), input)
}

/// The zone of `input` and its subdomain within it, as the extractor
/// splits the name; nothing where it cannot take the name apart or finds
/// no domain or no suffix in it.
pub open spec fn resolution_of(tld_ext: TldExtractor, input: Seq<char>) -> Option<
    (Seq<char>, Seq<char>),
> {
    match extraction_of(tld_ext, input) {
        Some(parts) => resolution(parts),
        None => None,
    }
}

/// `e` is the reason why `input` has no zone: the name could not be taken
/// apart, or else it has no domain, or else no suffix.
pub open spec fn refusal(tld_ext: TldExtractor, input: Seq<char>, e: ResolveError) -> bool {
    match extraction_of(tld_ext, input) {
        None => e is Extract,
        Some(parts) => if parts.domain is None {
            e is NoDomain
        } else {
            e is NoSuffix
        },
    }
}

/// Calls `TldExtractor::extract`, which splits `input` along the public
/// suffix list that the extractor was built with, and hands its three
/// parts over as they come. It looks up labels of `input` in the list and
/// reads nothing else, so that one list, one mode and one input give one
/// result: that result has a name, and nothing else is claimed of it.
#[verifier::external_body]
fn extract(tld_ext: &TldExtractor, input: &str) -> (r: Result<Extracted, TldExtractError>)
    ensures
        match r {
            Ok(parts) => extracted(suffix_list(*tld_ext), naive_mode(*tld_ext), input@) == Some(
                parts@,
            ),
            Err(_) => extracted(suffix_list(*tld_ext), naive_mode(*tld_ext), input@) is None,
        },
{
    match tld_ext.extract(input) {
        Ok(parts) => Ok(
            Extracted { domain: parts.domain, subdomain: parts.subdomain, suffix: parts.suffix },
        ),
        Err(e) => Err(e),
    }
}

/// The zone and the subdomain that the parts of a name give. The zone is
/// the domain, a dot and the suffix; the subdomain is `@` where the name
/// is the zone itself. A name without a domain has no zone, nor has one
/// without a suffix.
pub fn zone_and_subdomain(parts: Extracted) -> (r: Result<(String, String), ResolveError>)
    ensures
        resolved(r) == resolution(parts@),
        r matches Err(e) ==> (e is NoDomain <==> parts.domain is None) && (e is NoSuffix
            <==> parts.domain is Some) && !(e is Extract),
{
    let domain = match parts.domain {
        Some(domain) => domain,
        None => {
            return Err(ResolveError::NoDomain);
        },
    };
    let suffix = match parts.suffix {
        Some(suffix) => suffix,
        None => {
            return Err(ResolveError::NoSuffix);
        },
    };
    proof {
        reveal_strlit(".");
        reveal_strlit("@");
        assert("."@ =~= seq!['.']);
        assert("@"@ =~= apex());
    }
    let mut zone = domain;
    zone.append(".");
    zone.append(suffix.as_str());
    let subdomain = match parts.subdomain {
        Some(subdomain) => subdomain,
        None => String::from_str("@"),
    };
    Ok((zone, subdomain))
}

/// The zone of `input` and its subdomain within it, as the public suffix
/// list of `tld_ext` splits the name. The zone is the domain, a dot and
/// the suffix that the list finds in the name; the subdomain is what
/// stands before them, or `@`. A name that cannot be taken apart has no
/// zone, nor has one in which the list finds no domain or no suffix.
pub fn tld_to_zone_and_subdomain(tld_ext: &TldExtractor, input: &str) -> (r: Result<
    (String, String),
    ResolveError,
>)
    ensures
        resolved(r) == resolution_of(*tld_ext, input@),
        r matches Err(e) ==> refusal(*tld_ext, input@, e),
{
    match extract(tld_ext, input) {
        Err(e) => Err(ResolveError::Extract(e)),
        Ok(parts) => {
            zone_and_subdomain(parts)
        },
    }
}

} // verus!
