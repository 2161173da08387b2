use vstd::prelude::*;
use crate::status::JobError;

verus! {

/// What parsing a link as an absolute URL gives: `None` where it does not
/// parse, else the URL's host as text, if it has one.
pub uninterp spec fn parsed_url_host(s: Seq<char>) -> Option<Option<Seq<char>>>;

pub open spec fn host_view(h: Option<Option<String>>) -> Option<Option<Seq<char>>> {
    match h {
        None => None,
        Some(None) => Some(None),
        Some(Some(s)) => Some(Some(s@)),
    }
}

/// Relies on reqwest::Url::parse (the `url` crate's parser) to decide whether
/// the link is an absolute URL, and on Url::host_str for its host.
#[verifier::external_body]
fn url_host(s: &str) -> (r: Option<Option<String>>)
    ensures
        host_view(r) == parsed_url_host(s@),
{
    reqwest::Url::parse(s).ok().map(|u| u.host_str().map(|h| h.to_string()))
}

pub open spec fn ends_with(s: Seq<char>, suffix: Seq<char>) -> bool {
    s.len() >= suffix.len() && s.subrange(s.len() - suffix.len(), s.len() as int) == suffix
}

/// Hosts whose images may be transformed.
pub open spec fn allowed_host(h: Seq<char>) -> bool {
    ends_with(h, "discordapp.com"@) || ends_with(h, "discordapp.net"@)
}

/// Verdict on a link, given what parsing it gave.
pub open spec fn url_verdict(parsed: Option<Option<Seq<char>>>) -> Result<(), JobError> {
    match parsed {
        None => Err(JobError::InvalidUrl),
        Some(Some(h)) => if allowed_host(h) {
            Ok(())
        } else {
            Err(JobError::NotDiscordHosted)
        },
        Some(None) => Err(JobError::NotDiscordHosted),
    }
}

/// Whether `s` ends with `suffix`.
pub fn str_ends_with(s: &str, suffix: &str) -> (r: bool)
    ensures
        r == ends_with(s@, suffix@),
{
    let n = s.unicode_len();
    let k = suffix.unicode_len();
    if n < k {
        return false;
    }
    let off: usize = n - k;
    let mut i: usize = 0;
    while i < k
        invariant
            n == s@.len(),
            k == suffix@.len(),
            off == n - k,
            i <= k,
            forall|j: int| 0 <= j < i ==> s@[off + j] == suffix@[j],
        decreases k - i,
    {
        if s.get_char(off + i) != suffix.get_char(i) {
            assert(s@.subrange(off as int, n as int)[i as int] != suffix@[i as int]);
            return false;
        }
        i = i + 1;
    }
    assert(s@.subrange(off as int, n as int) =~= suffix@);
    true
}

/// Whether images on host `h` may be transformed.
pub fn is_allowed_host(h: &str) -> (r: bool)
    ensures
        r == allowed_host(h@),
{
    str_ends_with(h, "discordapp.com") || str_ends_with(h, "discordapp.net")
}

/// Decides on a link from what parsing it gave.
pub fn check_parsed_url(parsed: &Option<Option<String>>) -> (r: Result<(), JobError>)
    ensures
        r == url_verdict(host_view(*parsed)),
{
    match parsed {
        None => Err(JobError::InvalidUrl),
        Some(Some(h)) => if is_allowed_host(h.as_str()) {
            Ok(())
        } else {
            Err(JobError::NotDiscordHosted)
        },
        Some(None) => Err(JobError::NotDiscordHosted),
    }
}

/// Accepts a link to an image on a trusted host, or says why not. Makes no
/// network request.
pub fn validate_image_url(url: &str) -> (r: Result<(), JobError>)
    ensures
        r == url_verdict(parsed_url_host(url@)),
{
    let parsed = url_host(url);
    check_parsed_url(&parsed)
}

/// `s` with each occurrence of `from`, taken left to right without overlap,
/// replaced by `to`.
pub open spec fn replaced(s: Seq<char>, from: Seq<char>, to: Seq<char>) -> Seq<char>
    decreases s.len(),
{
    if from.len() == 0 || s.len() < from.len() {
        s
    } else if s.subrange(0, from.len() as int) == from {
        to + replaced(s.subrange(from.len() as int, s.len() as int), from, to)
    } else {
        seq![s[0]] + replaced(s.subrange(1, s.len() as int), from, to)
    }
}

/// Relies on str::replace: every non-overlapping match of `from`, leftmost
/// first, is replaced by `to`.
#[verifier::external_body]
fn replace_all(s: &str, from: &str, to: &str) -> (r: String)
    requires
        from@.len() > 0,
    ensures
        r@ == replaced(s@, from@, to@),
{
    s.replace(from, to)
}

/// A chat identity as far as avatars go.
pub struct Identity {
    /// Link to the avatar that the identity set, if any.
    pub avatar_url: Option<String>,
    /// Link to the avatar computed for identities that set none.
    pub default_avatar_url: String,
}

/// The avatar link of an identity: its own, else its computed default.
pub open spec fn avatar_of(id: Identity) -> Seq<char> {
    match id.avatar_url {
        Some(u) => u@,
        None => id.default_avatar_url@,
    }
}

/// The link from which the avatar command downloads: the target's avatar,
/// or the invoker's where no target is named, asked for as PNG, not WebP.
pub open spec fn avatar_source(target: Option<Identity>, invoker: Identity) -> Seq<char> {
    let id = match target {
        Some(t) => t,
        None => invoker,
    };
    replaced(avatar_of(id), "webp"@, "png"@)
}

/// Picks the link from which the avatar command downloads.
pub fn avatar_source_url(target: Option<&Identity>, invoker: &Identity) -> (r: String)
    ensures
        r@ == avatar_source(
            match target {
                Some(t) => Some(*t),
                None => None,
            },
            *invoker,
        ),
{
    let id = match target {
        Some(t) => t,
        None => invoker,
    };
    let link: &str = match &id.avatar_url {
        Some(u) => u.as_str(),
        None => id.default_avatar_url.as_str(),
    };
    proof { reveal_strlit("webp"); }
    replace_all(link, "webp", "png")
}

} // verus!
