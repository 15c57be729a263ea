//! RemoteTagResolver: derives the canonical `host/owner/repo` tag from a
//! version-control remote, normalizing the standard URL form and the SSH
//! shorthand form (`user@host:owner/repo.git`) to the same shape.

use vstd::prelude::*;
use vstd::string::*;

use crate::strings::{first_index_of, is_prefix, split_on, strip_prefix_all, strip_suffix_all,
    find_char, has_prefix, split_char, strip_prefix_reps, strip_suffix_reps,
    lemma_first_index_at, lemma_first_index_bounds, lemma_split_absent, lemma_split_step};

verus! {

/// Why no tag could be derived from a remote that was configured.
#[derive(Clone, Copy, Debug, PartialEq, Eq, Structural)]
pub enum TagError {
    /// The remote matches neither the URL form nor the SSH shorthand.
    UnrecognizedRemote,
    /// A recognized form whose host, owner or repository segment is absent or
    /// empty; surfaced apart so a partial tag is never produced silently.
    MissingSegments,
}

pub open spec fn git_at() -> Seq<char> {
    seq!['g', 'i', 't', '@']
}

pub open spec fn dot_git() -> Seq<char> {
    seq!['.', 'g', 'i', 't']
}

pub open spec fn compose_tag(host: Seq<char>, owner: Seq<char>, repo: Seq<char>) -> Seq<char> {
    host + seq!['/'] + owner + seq!['/'] + repo
}

/// Tag derivation from the host and path of a successfully parsed URL: the
/// last two path segments are owner and repository, the repository's trailing
/// `.git` is stripped, and an absent or empty segment is malformed.
pub open spec fn url_tag(host: Seq<char>, path: Seq<char>) -> Result<Seq<char>, TagError> {
    let segs = split_on(path, '/');
    if segs.len() < 2 {
        Err(TagError::MissingSegments)
    } else {
        let owner = segs[segs.len() - 2];
        let repo = strip_suffix_all(segs[segs.len() - 1], dot_git());
        if host.len() == 0 || owner.len() == 0 || repo.len() == 0 {
            Err(TagError::MissingSegments)
        } else {
            Ok(compose_tag(host, owner, repo))
        }
    }
}

/// Tag derivation from the SSH shorthand: the part before the first `:`,
/// without its `git@` marker, is the host; of the rest, split on `/`, the
/// first segment is the owner and the second the repository.
pub open spec fn ssh_tag(s: Seq<char>) -> Result<Seq<char>, TagError> {
    if !is_prefix(git_at(), s) {
        Err(TagError::UnrecognizedRemote)
    } else {
        let ci = first_index_of(s, ':');
        if ci == s.len() {
            Err(TagError::MissingSegments)
        } else {
            let host = strip_prefix_all(s.take(ci), git_at());
            let segs = split_on(s.skip(ci + 1), '/');
            if segs.len() < 2 {
                Err(TagError::MissingSegments)
            } else {
                let owner = segs[0];
                let repo = strip_suffix_all(segs[1], dot_git());
                if host.len() == 0 || owner.len() == 0 || repo.len() == 0 {
                    Err(TagError::MissingSegments)
                } else {
                    Ok(compose_tag(host, owner, repo))
                }
            }
        }
    }
}

/// The host and path that standard URL parsing yields for a remote string, or
/// nothing where the string is not a URL or the URL carries no host; a
/// function of the string alone.
pub uninterp spec fn url_host_path(s: Seq<char>) -> Option<(Seq<char>, Seq<char>)>;

/// The outcome of tag derivation for a remote string: the URL form takes
/// precedence, and the shorthand is tried only where URL parsing yields no
/// host and path.
pub open spec fn remote_tag(s: Seq<char>) -> Result<Seq<char>, TagError> {
    match url_host_path(s) {
        Some(hp) => url_tag(hp.0, hp.1),
        None => ssh_tag(s),
    }
}

/// Relies on url::Url::parse, Url::host_str and Url::path: a string either
/// parses as a URL or does not, the host (when present) and the path are
/// parts of the parsed URL, and all three depend on the input string alone.
#[verifier::external_body]
fn parse_url_host_path(s: &str) -> (r: Option<(String, String)>)
    ensures
        r is Some <==> url_host_path(s@) is Some,
        r matches Some(hp) ==> url_host_path(s@) == Some((hp.0@, hp.1@)),
{
    match url::Url::parse(s) {
        Ok(u) => match u.host_str() {
            Some(h) => Some((h.to_string(), u.path().to_string())),
            None => None,
        },
        Err(_) => None,
    }
}

/// Composes `host/owner/repo` as one string.
fn compose_tag_exec(host: &str, owner: &str, repo: &str) -> (t: String)
    ensures
        t@ == compose_tag(host@, owner@, repo@),
{
    proof {
        reveal_strlit("/");
        assert("/"@ =~= seq!['/']);
    }
    let mut t = host.to_owned();
    t.append("/");
    t.append(owner);
    t.append("/");
    t.append(repo);
    proof {
        assert(t@ =~= compose_tag(host@, owner@, repo@));
    }
    t
}

/// Tag derivation from an already parsed URL's host and path (what the
/// resolver does once URL parsing has succeeded).
pub fn tag_from_url_parts(host: &str, path: &str) -> (r: Result<String, TagError>)
    ensures
        match r {
            Ok(t) => url_tag(host@, path@) == Ok::<Seq<char>, TagError>(t@),
            Err(e) => url_tag(host@, path@) == Err::<Seq<char>, TagError>(e),
        },
{
    proof {
        reveal_strlit(".git");
        assert(".git"@ =~= dot_git());
    }
    let segs = split_char(path, '/');
    let ghost sv = split_on(path@, '/');
    proof {
        assert(segs@.len() == sv.len());
    }
    if segs.len() < 2 {
        return Err(TagError::MissingSegments);
    }
    let n = segs.len();
    let owner = &segs[n - 2];
    let repo = strip_suffix_reps(segs[n - 1].as_str(), ".git");
    proof {
        assert(owner@ == sv[sv.len() - 2]);
        assert(segs@[n - 1]@ == sv[sv.len() - 1]);
    }
    if host.unicode_len() == 0 || owner.as_str().unicode_len() == 0 || repo.as_str().unicode_len()
        == 0 {
        return Err(TagError::MissingSegments);
    }
    Ok(compose_tag_exec(host, owner.as_str(), repo.as_str()))
}

/// Tag derivation from the SSH shorthand form.
pub fn tag_from_ssh_shorthand(s: &str) -> (r: Result<String, TagError>)
    ensures
        match r {
            Ok(t) => ssh_tag(s@) == Ok::<Seq<char>, TagError>(t@),
            Err(e) => ssh_tag(s@) == Err::<Seq<char>, TagError>(e),
        },
{
    proof {
        reveal_strlit("git@");
        reveal_strlit(".git");
        assert("git@"@ =~= git_at());
        assert(".git"@ =~= dot_git());
    }
    if !has_prefix(s, "git@") {
        return Err(TagError::UnrecognizedRemote);
    }
    let len = s.unicode_len();
    let ci = find_char(s, ':');
    if ci == len {
        return Err(TagError::MissingSegments);
    }
    let host_part = s.substring_char(0, ci);
    let host = strip_prefix_reps(host_part, "git@");
    let path = s.substring_char(ci + 1, len);
    proof {
        assert(host_part@ =~= s@.take(first_index_of(s@, ':')));
        assert(path@ =~= s@.skip(first_index_of(s@, ':') + 1));
    }
    let segs = split_char(path, '/');
    let ghost sv = split_on(s@.skip(first_index_of(s@, ':') + 1), '/');
    proof {
        assert(segs.deep_view() == sv);
        assert(segs@.len() == sv.len());
    }
    if segs.len() < 2 {
        return Err(TagError::MissingSegments);
    }
    let owner = &segs[0];
    let repo = strip_suffix_reps(segs[1].as_str(), ".git");
    proof {
        assert(owner@ == sv[0]);
        assert(segs@[1]@ == sv[1]);
    }
    if host.as_str().unicode_len() == 0 || owner.as_str().unicode_len() == 0
        || repo.as_str().unicode_len() == 0 {
        return Err(TagError::MissingSegments);
    }
    Ok(compose_tag_exec(host.as_str(), owner.as_str(), repo.as_str()))
}

/// Full remote-to-tag derivation: the URL form first, then the shorthand, a
/// recognized form with missing segments surfaced apart from an unrecognized
/// remote.
pub fn tag_from_remote(remote: &str) -> (r: Result<String, TagError>)
    ensures
        match r {
            Ok(t) => remote_tag(remote@) == Ok::<Seq<char>, TagError>(t@),
            Err(e) => remote_tag(remote@) == Err::<Seq<char>, TagError>(e),
        },
{
    match parse_url_host_path(remote) {
        Some(hp) => tag_from_url_parts(hp.0.as_str(), hp.1.as_str()),
        None => tag_from_ssh_shorthand(remote),
    }
}

/// RemoteTagResolver.resolve on the remote read from the repository's
/// configuration: the canonical tag, or absence where no remote is configured
/// or no full tag can be derived from it.
pub fn resolve_tag(remote: &Option<String>) -> (r: Option<String>)
    ensures
        match remote {
            None => r is None,
            Some(rem) => match r {
                Some(t) => remote_tag(rem@) == Ok::<Seq<char>, TagError>(t@),
                None => remote_tag(rem@) is Err,
            },
        },
{
    match remote {
        None => None,
        Some(rem) => match tag_from_remote(rem.as_str()) {
            Ok(t) => Some(t),
            Err(_) => None,
        },
    }
}

/// Round-trip equivalence of the two remote styles: a URL-form remote with
/// path `/owner/repo` and the shorthand `git@host:owner/repo` derive the same
/// canonical tag, for any host, owner and repository free of the separators.
pub proof fn lemma_forms_agree(host: Seq<char>, owner: Seq<char>, repo: Seq<char>)
    requires
        host.len() > 0,
        owner.len() > 0,
        strip_suffix_all(repo, dot_git()).len() > 0,
        !host.contains(':'),
        !is_prefix(git_at(), host),
        !owner.contains('/'),
        !repo.contains('/'),
    ensures
        url_tag(host, seq!['/'] + owner + seq!['/'] + repo) == Ok::<Seq<char>, TagError>(
            compose_tag(host, owner, strip_suffix_all(repo, dot_git())),
        ),
        ssh_tag(git_at() + host + seq![':'] + owner + seq!['/'] + repo) == url_tag(
            host,
            seq!['/'] + owner + seq!['/'] + repo,
        ),
{
    let tail_path = owner + seq!['/'] + repo;
    assert(tail_path.contains('/')) by {
        assert(tail_path[owner.len() as int] == '/');
    }
    lemma_split_step(owner, repo, '/');
    lemma_split_absent(repo, '/');
    assert(split_on(tail_path, '/') == seq![owner] + seq![repo]);
    assert((seq![owner] + seq![repo]).len() == 2);

    // The URL side: the path's split is ["", owner, repo].
    let path = seq!['/'] + owner + seq!['/'] + repo;
    assert(path =~= Seq::<char>::empty() + seq!['/'] + tail_path);
    lemma_split_step(Seq::empty(), tail_path, '/');
    let psegs = split_on(path, '/');
    assert(psegs == seq![Seq::<char>::empty()] + (seq![owner] + seq![repo]));
    assert(psegs.len() == 3);
    assert(psegs[1] == owner);
    assert(psegs[2] == repo);

    // The shorthand side: the first ':' closes the host part.
    let s = git_at() + host + seq![':'] + owner + seq!['/'] + repo;
    assert(is_prefix(git_at(), s)) by {
        assert(git_at() =~= s.subrange(0, 4));
    }
    let ci = 4 + host.len() as int;
    assert(s[ci] == ':');
    assert forall|j: int| 0 <= j < ci implies s[j] != ':' by {
        if j < 4 {
            assert(s[j] == git_at()[j]);
        } else {
            assert(s[j] == host[j - 4]);
            if s[j] == ':' {
                assert(host.contains(':'));
            }
        }
    }
    lemma_first_index_at(s, ':', ci);
    assert(s.take(ci) =~= git_at() + host);
    assert(is_prefix(git_at(), git_at() + host)) by {
        assert(git_at() =~= (git_at() + host).subrange(0, 4));
    }
    assert((git_at() + host).skip(4) =~= host);
    assert(git_at().len() == 4);
    assert(strip_prefix_all(git_at() + host, git_at()) == strip_prefix_all(host, git_at()));
    assert(strip_prefix_all(host, git_at()) == host);
    assert(strip_prefix_all(s.take(ci), git_at()) == host);
    assert(s.skip(ci + 1) =~= tail_path);
}

/// A shorthand remote whose path part lacks a repository segment — no `:` at
/// all, or nothing after the `:` to split on `/` — is rejected as malformed
/// rather than yielding a partial tag.
pub proof fn lemma_ssh_missing_repo_rejected(s: Seq<char>)
    requires
        is_prefix(git_at(), s),
    ensures
        first_index_of(s, ':') == s.len() ==> ssh_tag(s) == Err::<Seq<char>, TagError>(
            TagError::MissingSegments,
        ),
        first_index_of(s, ':') < s.len() && !s.skip(first_index_of(s, ':') + 1).contains('/')
            ==> ssh_tag(s) == Err::<Seq<char>, TagError>(TagError::MissingSegments),
{
    lemma_first_index_bounds(s, ':');
    let ci = first_index_of(s, ':');
    if ci < s.len() && !s.skip(ci + 1).contains('/') {
        lemma_split_absent(s.skip(ci + 1), '/');
    }
}

/// A successful shorthand derivation is never partial: the tag is
/// host/owner/repo with every part nonempty.
pub proof fn lemma_ssh_tag_full(s: Seq<char>)
    ensures
        ssh_tag(s) matches Ok(t) ==> exists|h: Seq<char>, o: Seq<char>, p: Seq<char>|
            h.len() > 0 && o.len() > 0 && p.len() > 0 && t == #[trigger] compose_tag(h, o, p),
{
    if ssh_tag(s) is Ok {
        let t = ssh_tag(s)->Ok_0;
        let ci = first_index_of(s, ':');
        let host = strip_prefix_all(s.take(ci), git_at());
        let segs = split_on(s.skip(ci + 1), '/');
        let owner = segs[0];
        let repo = strip_suffix_all(segs[1], dot_git());
        assert(host.len() > 0 && owner.len() > 0 && repo.len() > 0 && t == compose_tag(
            host,
            owner,
            repo,
        ));
    }
}

/// A successful URL-form derivation is never partial either.
pub proof fn lemma_url_tag_full(host: Seq<char>, path: Seq<char>)
    ensures
        url_tag(host, path) matches Ok(t) ==> exists|h: Seq<char>, o: Seq<char>, p: Seq<char>|
            h.len() > 0 && o.len() > 0 && p.len() > 0 && t == #[trigger] compose_tag(h, o, p),
{
    if url_tag(host, path) is Ok {
        let t = url_tag(host, path)->Ok_0;
        let segs = split_on(path, '/');
        let owner = segs[segs.len() - 2];
        let repo = strip_suffix_all(segs[segs.len() - 1], dot_git());
        assert(host.len() > 0 && owner.len() > 0 && repo.len() > 0 && t == compose_tag(
            host,
            owner,
            repo,
        ));
    }
}

} // verus!
