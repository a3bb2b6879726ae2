//! Forge detection from a clone's git remotes.
use crate::config;
use crate::config::ForgeType;
use crate::text;
use vstd::prelude::*;

verus! {

/// A forge (type, API host, and project) detected by parsing a remote URL.
#[derive(Debug, Clone)]
pub struct DetectedForge {
    pub forge_type: ForgeType,
    pub host: String,
    pub project: String,
    /// Only for Azure DevOps, the name of the repository.
    pub repository_name: Option<String>,
}

/// What a [`DetectedForge`] says.
#[verifier::ext_equal]
pub struct DetectedView {
    pub forge_type: ForgeType,
    pub host: Seq<char>,
    pub project: Seq<char>,
    pub repository_name: Option<Seq<char>>,
}

impl View for DetectedForge {
    type V = DetectedView;

    open spec fn view(&self) -> DetectedView {
        DetectedView {
            forge_type: self.forge_type,
            host: self.host@,
            project: self.project@,
            repository_name: text::opt_text(self.repository_name),
        }
    }
}

/// What an optional detected forge says.
pub open spec fn opt_detected(d: Option<DetectedForge>) -> Option<DetectedView> {
    match d {
        Some(d) => Some(d@),
        None => None,
    }
}

/// The project and, for Azure DevOps, the repository that the path of a remote URL names.
pub open spec fn project_of_path(forge: ForgeType, path: Seq<char>) -> (
    Seq<char>,
    Option<Seq<char>>,
) {
    let bare = text::without_suffixes(path, ".git"@);
    let parts = text::split(bare, '/');
    if forge == ForgeType::AzureDevOps && parts.len() == 4 {
        (parts[1] + "/"@ + parts[2], Some(parts[3]))
    } else {
        (bare, None)
    }
}

/// The address of the API of a host.
pub open spec fn api_host(forge: ForgeType, protocol: Seq<char>, host: Seq<char>) -> Seq<char> {
    if forge == ForgeType::GitHub && host == "github.com"@ {
        "https://api.github.com"@
    } else if forge == ForgeType::GitHub {
        protocol + "://"@ + host + "/api/v3"@
    } else {
        protocol + "://"@ + host
    }
}

/// The forge of a remote with the given protocol, host and path.
pub open spec fn forge_at(
    protocol: Seq<char>,
    host: Seq<char>,
    path: Seq<char>,
) -> Option<DetectedView> {
    match config::forge_of_host(host) {
        Some(forge) => Some(
            DetectedView {
                forge_type: forge,
                host: api_host(forge, protocol, host),
                project: project_of_path(forge, path).0,
                repository_name: project_of_path(forge, path).1,
            },
        ),
        None => None,
    }
}

/// The host and path of what follows the user in an SSH address: the colon parts them, or,
/// where there is none, the slash.
pub open spec fn ssh_parts(rest: Seq<char>) -> Option<(Seq<char>, Seq<char>)> {
    match text::cut(rest, ':') {
        Some(parts) => Some(parts),
        None => text::cut(rest, '/'),
    }
}

/// The forge that a remote URL points to.
pub open spec fn forge_of_url(url: Seq<char>) -> Option<DetectedView> {
    if text::starts_with(url, "git@"@) || text::starts_with(url, "ssh://git@"@) {
        let bare = text::without_prefixes(url, "ssh://"@);
        if !text::starts_with(bare, "git@"@) {
            None
        } else {
            match ssh_parts(bare.skip("git@"@.len() as int)) {
                Some((host, path)) => forge_at("https"@, host, path),
                None => None,
            }
        }
    } else if text::starts_with(url, "https://"@) {
        match text::cut(url.skip("https://"@.len() as int), '/') {
            Some((host, path)) => forge_at("https"@, host, path),
            None => None,
        }
    } else if text::starts_with(url, "http://"@) {
        match text::cut(url.skip("http://"@.len() as int), '/') {
            Some((host, path)) => forge_at("http"@, host, path),
            None => None,
        }
    } else {
        None
    }
}

/// The project and repository that the path of a remote URL names.
fn read_path(forge: ForgeType, path: &str) -> (r: (String, Option<String>))
    ensures
        (r.0@, text::opt_text(r.1)) == project_of_path(forge, path@),
{
    let bare = text::trim_end_matches(path, ".git");
    if forge == ForgeType::AzureDevOps {
        let parts = text::str_split(bare, '/');
        assert(text::slices(parts@).len() == parts@.len());
        if parts.len() == 4 {
            assert(text::slices(parts@)[1] == parts@[1]@);
            assert(text::slices(parts@)[2] == parts@[2]@);
            assert(text::slices(parts@)[3] == parts@[3]@);
            return (
                parts[1].to_owned().concat("/").concat(parts[2]),
                Some(parts[3].to_owned()),
            );
        }
    }
    (bare.to_owned(), None)
}

/// The address of the API of a host.
fn write_api_host(forge: ForgeType, protocol: &str, host: &str) -> (r: String)
    ensures
        r@ == api_host(forge, protocol@, host@),
{
    if forge == ForgeType::GitHub && text::str_eq(host, "github.com") {
        "https://api.github.com".to_owned()
    } else if forge == ForgeType::GitHub {
        protocol.to_owned().concat("://").concat(host).concat("/api/v3")
    } else {
        protocol.to_owned().concat("://").concat(host)
    }
}

/// The forge of a remote with the given protocol, host and path.
fn detect_at(protocol: &str, host: &str, path: &str) -> (r: Option<DetectedForge>)
    ensures
        opt_detected(r) == forge_at(protocol@, host@, path@),
{
    match ForgeType::detect_from_host(host) {
        Some(forge_type) => {
            let (project, repository_name) = read_path(forge_type, path);
            let host = write_api_host(forge_type, protocol, host);
            Some(DetectedForge { forge_type, host, project, repository_name })
        },
        None => None,
    }
}

/// Reads a remote URL: forge type, API host, and project.
pub fn parse_forge_url(url: &str) -> (r: Option<DetectedForge>)
    ensures
        opt_detected(r) == forge_of_url(url@),
{
    if text::str_starts_with(url, "git@") || text::str_starts_with(url, "ssh://git@") {
        let bare = text::trim_start_matches(url, "ssh://");
        return match text::strip_prefix(bare, "git@") {
            Some(rest) => match text::split_once(rest, ':') {
                Some((host, path)) => detect_at("https", host, path),
                None => match text::split_once(rest, '/') {
                    Some((host, path)) => detect_at("https", host, path),
                    None => None,
                },
            },
            None => None,
        };
    }
    match text::strip_prefix(url, "https://") {
        Some(rest) => match text::split_once(rest, '/') {
            Some((host, path)) => detect_at("https", host, path),
            None => None,
        },
        None => match text::strip_prefix(url, "http://") {
            Some(rest) => match text::split_once(rest, '/') {
                Some((host, path)) => detect_at("http", host, path),
                None => None,
            },
            None => None,
        },
    }
}

/// A `.git` at the end of a path makes no difference.
pub proof fn git_suffix_makes_no_difference(forge: ForgeType, path: Seq<char>)
    ensures
        project_of_path(forge, path + ".git"@) == project_of_path(forge, path),
{
    reveal_strlit(".git");
    let longer = path + ".git"@;
    assert(longer.subrange(path.len() as int, longer.len() as int) =~= ".git"@);
    assert(longer.take(path.len() as int) =~= path);
}

proof fn lemma_cut_at(a: Seq<char>, c: char, b: Seq<char>)
    requires
        !a.contains(c),
    ensures
        text::cut(a + seq![c] + b, c) == Some((a, b)),
{
    let s = a + seq![c] + b;
    text::lemma_find(s, c);
    let i = text::find(s, c);
    assert(s[a.len() as int] == c);
    assert(s.contains(c));
    if i < a.len() {
        assert(a[i] == c);
    }
    assert(s.take(a.len() as int) =~= a);
    assert(s.skip(a.len() as int + 1) =~= b);
}

proof fn lemma_suffix_keeps_start(s: Seq<char>, pat: Seq<char>)
    requires
        !pat.contains('.'),
    ensures
        text::starts_with(s + ".git"@, pat) == text::starts_with(s, pat),
        pat.len() <= s.len() ==> (s + ".git"@).skip(pat.len() as int) == s.skip(pat.len() as int)
            + ".git"@,
{
    reveal_strlit(".git");
    let longer = s + ".git"@;
    let n = pat.len() as int;
    if n <= s.len() {
        assert(longer.subrange(0, n) =~= s.subrange(0, n));
        assert(longer.skip(n) =~= s.skip(n) + ".git"@);
    } else if text::starts_with(longer, pat) {
        let at = s.len() as int;
        assert(longer.subrange(0, n)[at] == longer[at]);
        assert(pat[at] == '.');
    }
}

proof fn lemma_suffix_keeps_prefixes(s: Seq<char>, pat: Seq<char>)
    requires
        !pat.contains('.'),
    ensures
        text::without_prefixes(s + ".git"@, pat) == text::without_prefixes(s, pat) + ".git"@,
    decreases s.len(),
{
    lemma_suffix_keeps_start(s, pat);
    if pat.len() > 0 && text::starts_with(s, pat) {
        lemma_suffix_keeps_prefixes(s.skip(pat.len() as int), pat);
    }
}

proof fn lemma_suffix_keeps_cut(s: Seq<char>, c: char)
    requires
        c == ':' || c == '/',
    ensures
        text::cut(s + ".git"@, c) == match text::cut(s, c) {
            Some((before, after)) => Some((before, after + ".git"@)),
            None => None,
        },
{
    reveal_strlit(".git");
    let longer = s + ".git"@;
    text::lemma_find(s, c);
    text::lemma_find(longer, c);
    let i = text::find(s, c);
    let j = text::find(longer, c);
    if i < s.len() {
        assert(longer[i] == c);
        if j < i {
            assert(s[j] == c);
        }
        assert(i == j);
        assert(longer.take(i) =~= s.take(i));
        assert(longer.skip(i + 1) =~= s.skip(i + 1) + ".git"@);
    } else if j < longer.len() {
        if j < s.len() {
            assert(s[j] == c);
        } else {
            assert(".git"@[j - s.len()] == c);
        }
    }
}

proof fn lemma_suffix_keeps_forge(protocol: Seq<char>, host: Seq<char>, path: Seq<char>)
    ensures
        forge_at(protocol, host, path + ".git"@) == forge_at(protocol, host, path),
{
    if let Some(forge) = config::forge_of_host(host) {
        git_suffix_makes_no_difference(forge, path);
    }
}

/// A `.git` at the end of a remote URL makes no difference, whatever the URL is.
pub proof fn git_suffix_of_url_makes_no_difference(url: Seq<char>)
    ensures
        forge_of_url(url + ".git"@) == forge_of_url(url),
{
    reveal_strlit("git@");
    reveal_strlit("ssh://");
    reveal_strlit("ssh://git@");
    reveal_strlit("https://");
    reveal_strlit("http://");
    lemma_suffix_keeps_start(url, "git@"@);
    lemma_suffix_keeps_start(url, "ssh://git@"@);
    lemma_suffix_keeps_start(url, "https://"@);
    lemma_suffix_keeps_start(url, "http://"@);
    lemma_suffix_keeps_prefixes(url, "ssh://"@);
    let bare = text::without_prefixes(url, "ssh://"@);
    lemma_suffix_keeps_start(bare, "git@"@);
    let rest = if text::starts_with(url, "git@"@) || text::starts_with(url, "ssh://git@"@) {
        bare.skip(4)
    } else if text::starts_with(url, "https://"@) {
        url.skip(8)
    } else {
        url.skip(7)
    };
    lemma_suffix_keeps_cut(rest, ':');
    lemma_suffix_keeps_cut(rest, '/');
    if let Some((host, path)) = text::cut(rest, ':') {
        lemma_suffix_keeps_forge("https"@, host, path);
    }
    if let Some((host, path)) = text::cut(rest, '/') {
        lemma_suffix_keeps_forge("https"@, host, path);
        lemma_suffix_keeps_forge("http"@, host, path);
    }
}

proof fn lemma_starts_with(a: Seq<char>, b: Seq<char>)
    ensures
        text::starts_with(a + b, a),
        (a + b).skip(a.len() as int) == b,
{
    assert((a + b).subrange(0, a.len() as int) =~= a);
    assert((a + b).skip(a.len() as int) =~= b);
}

/// The ways to write the address of a remote mean the same: a host and a path give the same
/// forge behind `git@`, behind `ssh://git@` and behind `https://`.
pub proof fn address_forms_agree(host: Seq<char>, path: Seq<char>)
    requires
        !host.contains(':'),
        !host.contains('/'),
    ensures
        forge_of_url("git@"@ + (host + seq![':'] + path)) == forge_at("https"@, host, path),
        forge_of_url("ssh://git@"@ + (host + seq![':'] + path)) == forge_at("https"@, host, path),
        !path.contains(':') ==> forge_of_url("ssh://git@"@ + (host + seq!['/'] + path))
            == forge_at("https"@, host, path),
        forge_of_url("https://"@ + (host + seq!['/'] + path)) == forge_at("https"@, host, path),
{
    reveal_strlit("git@");
    reveal_strlit("ssh://");
    reveal_strlit("ssh://git@");
    reveal_strlit("https://");
    let colon = host + seq![':'] + path;
    let slash = host + seq!['/'] + path;
    lemma_cut_at(host, ':', path);
    lemma_cut_at(host, '/', path);
    lemma_plain_ssh(colon);
    lemma_plain_ssh(slash);
    lemma_starts_with("git@"@, colon);
    lemma_starts_with("git@"@, slash);
    lemma_starts_with("ssh://git@"@, colon);
    lemma_starts_with("ssh://git@"@, slash);
    lemma_starts_with("https://"@, slash);
    let https = "https://"@ + slash;
    assert(https[0] == 'h');
    assert(!text::starts_with(https, "git@"@)) by {
        if text::starts_with(https, "git@"@) {
            assert(https.subrange(0, 4)[0] == 'g');
        }
    }
    assert(!text::starts_with(https, "ssh://git@"@)) by {
        if text::starts_with(https, "ssh://git@"@) {
            assert(https.subrange(0, 10)[0] == 's');
        }
    }
    if !path.contains(':') {
        text::lemma_find(slash, ':');
        assert(!slash.contains(':')) by {
            if slash.contains(':') {
                let i = slash.index_of(':');
                if i < host.len() {
                    assert(host[i] == ':');
                } else if i > host.len() {
                    assert(path[i - host.len() - 1] == ':');
                }
            }
        }
        assert(text::cut(slash, ':') is None);
    }
}

/// What is left of an SSH address without its protocol.
proof fn lemma_plain_ssh(rest: Seq<char>)
    ensures
        text::without_prefixes("git@"@ + rest, "ssh://"@) == "git@"@ + rest,
        text::without_prefixes("ssh://git@"@ + rest, "ssh://"@) == "git@"@ + rest,
{
    reveal_strlit("git@");
    reveal_strlit("ssh://");
    reveal_strlit("ssh://git@");
    let bare = "git@"@ + rest;
    let full = "ssh://git@"@ + rest;
    assert(bare[0] == 'g');
    assert(!text::starts_with(bare, "ssh://"@)) by {
        if text::starts_with(bare, "ssh://"@) {
            assert(bare.subrange(0, 6)[0] == 's');
        }
    }
    assert(full.subrange(0, 6) =~= "ssh://"@);
    assert(full.skip(6) =~= bare);
}

// ---------------------------------------------------------------------------
// Listings of remotes
// ---------------------------------------------------------------------------
/// The name and URL on one line of a listing of remotes: exactly two words.
pub open spec fn remote_entry(line: Seq<char>) -> Option<(Seq<char>, Seq<char>)> {
    let words = text::words(line);
    if words.len() == 2 {
        Some((words[0], words[1]))
    } else {
        None
    }
}

/// The URL that the last entry of that name gives.
pub open spec fn url_of(lines: Seq<Seq<char>>, name: Seq<char>) -> Option<Seq<char>>
    decreases lines.len(),
{
    if lines.len() == 0 {
        None
    } else {
        match remote_entry(lines.last()) {
            Some((n, url)) if n == name => Some(url),
            _ => url_of(lines.drop_last(), name),
        }
    }
}

/// The name and URL on one line of a listing of remotes.
pub fn read_remote_entry<'a>(line: &'a str) -> (r: Option<(&'a str, &'a str)>)
    ensures
        match r {
            Some((name, url)) => remote_entry(line@) == Some((name@, url@)),
            None => remote_entry(line@) is None,
        },
{
    let words = text::str_words(line);
    assert(text::slices(words@).len() == words@.len());
    if words.len() == 2 {
        assert(text::slices(words@)[0] == words@[0]@);
        assert(text::slices(words@)[1] == words@[1]@);
        Some((words[0], words[1]))
    } else {
        None
    }
}

/// The URL that the last entry of that name gives.
pub fn find_url<'a>(lines: &Vec<&'a str>, name: &str) -> (r: Option<&'a str>)
    ensures
        text::opt_slice(r) == url_of(text::slices(lines@), name@),
{
    let n = lines.len();
    let mut found: Option<&'a str> = None;
    let mut i: usize = 0;
    let ghost all = text::slices(lines@);
    assert(all.take(0) == Seq::<Seq<char>>::empty());
    while i < n
        invariant
            n == lines@.len(),
            i <= n,
            all == text::slices(lines@),
            text::opt_slice(found) == url_of(all.take(i as int), name@),
        decreases n - i,
    {
        proof {
            assert(all.take(i + 1).drop_last() == all.take(i as int));
            assert(all.take(i + 1).last() == all[i as int]);
        }
        if let Some((entry, url)) = read_remote_entry(lines[i]) {
            if text::str_eq(entry, name) {
                found = Some(url);
            }
        }
        i += 1;
    }
    assert(all.take(n as int) == all);
    found
}

/// The forge of the named remote in a listing of remotes, where it is of the given type.
/// Where there is an `upstream` remote besides, nothing is derived: the named remote is
/// then a fork.
pub open spec fn derived_forge(
    listing: Option<Seq<char>>,
    remote_name: Seq<char>,
    forge: ForgeType,
) -> Option<DetectedView> {
    match listing {
        None => None,
        Some(listing) => {
            let lines = text::lines(listing);
            if url_of(lines, "upstream"@) is Some && remote_name != "upstream"@ {
                None
            } else {
                match url_of(lines, remote_name) {
                    Some(url) => match forge_of_url(url) {
                        Some(detected) if detected.forge_type == forge => Some(detected),
                        _ => None,
                    },
                    None => None,
                }
            }
        },
    }
}

/// The forge of the named remote, as the listing of remotes gives it. No listing stands for
/// a command that failed.
pub fn detect_project(
    listing: Option<&str>,
    remote_name: &str,
    forge_type: ForgeType,
) -> (r: Option<DetectedForge>)
    ensures
        opt_detected(r) == derived_forge(text::opt_slice(listing), remote_name@, forge_type),
{
    let listing = match listing {
        Some(listing) => listing,
        None => return None,
    };
    let lines = text::str_lines(listing);
    let remote_url = find_url(&lines, remote_name);
    let has_upstream = find_url(&lines, "upstream").is_some();
    if has_upstream && !text::str_eq(remote_name, "upstream") {
        return None;
    }
    let url = match remote_url {
        Some(url) => url,
        None => return None,
    };
    match parse_forge_url(url) {
        Some(detected) => if detected.forge_type == forge_type {
            Some(detected)
        } else {
            None
        },
        None => None,
    }
}

/// A remote is never filled in across forges, nor past an `upstream` remote.
pub proof fn derivation_keeps_its_fences(
    listing: Seq<char>,
    remote_name: Seq<char>,
    forge: ForgeType,
)
    ensures
        derived_forge(Some(listing), remote_name, forge) matches Some(d) ==> d.forge_type == forge,
        url_of(text::lines(listing), "upstream"@) is Some && remote_name != "upstream"@
            ==> derived_forge(Some(listing), remote_name, forge) is None,
        derived_forge(None, remote_name, forge) is None,
{
}

// ---------------------------------------------------------------------------
// Laws of remotes
// ---------------------------------------------------------------------------
proof fn lemma_http_form(host: Seq<char>, path: Seq<char>)
    requires
        !host.contains('/'),
    ensures
        forge_of_url("http://"@ + (host + seq!['/'] + path)) == forge_at("http"@, host, path),
{
    reveal_strlit("git@");
    reveal_strlit("ssh://git@");
    reveal_strlit("https://");
    reveal_strlit("http://");
    let slash = host + seq!['/'] + path;
    let url = "http://"@ + slash;
    lemma_cut_at(host, '/', path);
    lemma_starts_with("http://"@, slash);
    assert(url[0] == 'h' && url[4] == ':');
    if text::starts_with(url, "git@"@) {
        assert(url.subrange(0, 4)[0] == 'g');
    }
    if text::starts_with(url, "ssh://git@"@) {
        assert(url.subrange(0, 10)[0] == 's');
    }
    if text::starts_with(url, "https://"@) {
        assert(url.subrange(0, 8)[4] == 's');
    }
}

/// Each way to write a remote URL gives what stands in it. There is a forge exactly where the
/// host is taken for one; the project is the path; the API is that of the host, reached by the
/// protocol of the URL, or by HTTPS where that is SSH.
pub proof fn url_gives_what_stands_in_it(
    url: &str,
    prefix: Seq<char>,
    host: &str,
    sep: char,
    path: Seq<char>,
    kind: Option<ForgeType>,
    r: Option<DetectedForge>,
)
    requires
        ({
            ||| prefix == "https://"@ && sep == '/'
            ||| prefix == "http://"@ && sep == '/'
            ||| prefix == "git@"@ && sep == ':'
            ||| prefix == "ssh://git@"@ && sep == ':'
            ||| prefix == "ssh://git@"@ && sep == '/' && !path.contains(':')
        }),
        !host@.contains('/'),
        !host@.contains(':'),
        !text::ends_with(path, ".git"@),
        url@ == prefix + (host@ + seq![sep] + path),
        call_ensures(ForgeType::detect_from_host, (host,), kind),
        call_ensures(parse_forge_url, (url,), r),
    ensures
        r is Some <==> kind is Some,
        kind matches Some(forge) ==> {
            let scheme = if prefix == "http://"@ {
                "http://"@
            } else {
                "https://"@
            };
            &&& r->0.forge_type == forge
            &&& forge != ForgeType::AzureDevOps ==> r->0.project@ == path
                && r->0.repository_name is None
            &&& forge == ForgeType::GitHub && host@ == "github.com"@ ==> r->0.host@
                == "https://api.github.com"@
            &&& forge == ForgeType::GitHub && host@ != "github.com"@ ==> r->0.host@ == scheme
                + host@ + "/api/v3"@
            &&& forge != ForgeType::GitHub ==> r->0.host@ == scheme + host@
        },
{
    reveal_strlit("https://");
    reveal_strlit("http://");
    reveal_strlit("git@");
    reveal_strlit("ssh://git@");
    reveal_strlit("://");
    reveal_strlit("https");
    reveal_strlit("http");
    assert("https://"@.len() == 8 && "http://"@.len() == 7 && "git@"@.len() == 4
        && "ssh://git@"@.len() == 10);
    address_forms_agree(host@, path);
    lemma_http_form(host@, path);
    assert("https"@ + "://"@ =~= "https://"@);
    assert("http"@ + "://"@ =~= "http://"@);
}

/// On Azure DevOps a path of four parts names an organization, a project and a repository.
pub proof fn azure_path_names_a_repository(
    url: &str,
    host: &str,
    first: Seq<char>,
    second: Seq<char>,
    third: Seq<char>,
    fourth: Seq<char>,
    r: Option<DetectedForge>,
)
    requires
        !host@.contains('/'),
        !host@.contains(':'),
        !first.contains('/'),
        !second.contains('/'),
        !third.contains('/'),
        !fourth.contains('/'),
        !text::ends_with(
            first + seq!['/'] + (second + seq!['/'] + (third + seq!['/'] + fourth)),
            ".git"@,
        ),
        url@ == "https://"@ + (host@ + seq!['/'] + (first + seq!['/'] + (second + seq!['/'] + (third
            + seq!['/'] + fourth)))),
        call_ensures(ForgeType::detect_from_host, (host,), Some(ForgeType::AzureDevOps)),
        call_ensures(parse_forge_url, (url,), r),
    ensures
        r is Some,
        r->0.forge_type == ForgeType::AzureDevOps,
        r->0.project@ == second + "/"@ + third,
        r->0.repository_name is Some,
        r->0.repository_name->0@ == fourth,
{
    let c = third + seq!['/'] + fourth;
    let b = second + seq!['/'] + c;
    let a = first + seq!['/'] + b;
    address_forms_agree(host@, a);
    lemma_split_at(first, b);
    lemma_split_at(second, c);
    lemma_split_at(third, fourth);
    text::lemma_find(fourth, '/');
    assert(text::split(fourth, '/') == seq![fourth]);
    assert(text::split(c, '/') =~= seq![third, fourth]);
    assert(text::split(b, '/') =~= seq![second, third, fourth]);
    assert(text::split(a, '/') =~= seq![first, second, third, fourth]);
}

proof fn lemma_split_at(a: Seq<char>, b: Seq<char>)
    requires
        !a.contains('/'),
    ensures
        text::split(a + seq!['/'] + b, '/') == seq![a] + text::split(b, '/'),
{
    lemma_cut_at(a, '/', b);
    text::lemma_find(a + seq!['/'] + b, '/');
}

/// What is written in none of these ways is no remote of a forge.
pub proof fn other_urls_give_nothing(url: &str, r: Option<DetectedForge>)
    requires
        call_ensures(parse_forge_url, (url,), r),
        !text::starts_with(url@, "https://"@),
        !text::starts_with(url@, "http://"@),
        !text::starts_with(url@, "git@"@),
        !text::starts_with(url@, "ssh://git@"@),
    ensures
        r is None,
{
}

/// The URL of a remote is the second of the two words on the last line whose first word is its
/// name. Lines of another number of words count for nothing.
pub proof fn last_entry_gives_the_url(lines: Vec<&str>, name: &str, r: Option<&str>)
    requires
        call_ensures(find_url, (&lines, name), r),
    ensures
        match r {
            Some(url) => exists|i: int|
                0 <= i < lines@.len() && text::words((#[trigger] lines@[i])@).len() == 2
                    && text::words(lines@[i]@)[0] == name@ && text::words(lines@[i]@)[1] == url@ && (
                forall|j: int|
                    i < j < lines@.len() ==> !(text::words((#[trigger] lines@[j])@).len() == 2
                        && text::words(lines@[j]@)[0] == name@)),
            None => forall|j: int|
                0 <= j < lines@.len() ==> !(text::words((#[trigger] lines@[j])@).len() == 2
                    && text::words(lines@[j]@)[0] == name@),
        },
{
    let all = text::slices(lines@);
    assert(all.len() == lines@.len());
    let i = lemma_url_of(all, name@);
    match r {
        Some(url) => {
            assert(all[i] == lines@[i]@);
            assert forall|j: int| i < j < lines@.len() implies !(text::words(
                (#[trigger] lines@[j])@,
            ).len() == 2 && text::words(lines@[j]@)[0] == name@) by {
                assert(all[j] == lines@[j]@);
            }
        },
        None => {
            assert forall|j: int| 0 <= j < lines@.len() implies !(text::words(
                (#[trigger] lines@[j])@,
            ).len() == 2 && text::words(lines@[j]@)[0] == name@) by {
                assert(all[j] == lines@[j]@);
            }
        },
    }
}

proof fn lemma_url_of(lines: Seq<Seq<char>>, name: Seq<char>) -> (i: int)
    ensures
        url_of(lines, name) matches Some(url) ==> 0 <= i < lines.len() && text::words(
            lines[i],
        ).len() == 2 && text::words(lines[i])[0] == name && text::words(lines[i])[1] == url,
        url_of(lines, name) is None ==> i == -1,
        forall|j: int|
            i < j < lines.len() ==> !(text::words(#[trigger] lines[j]).len() == 2 && text::words(
                lines[j],
            )[0] == name),
    decreases lines.len(),
{
    if lines.len() == 0 {
        -1
    } else if text::words(lines.last()).len() == 2 && text::words(lines.last())[0] == name {
        lines.len() - 1
    } else {
        let before = lines.drop_last();
        let i = lemma_url_of(before, name);
        assert forall|j: int| i < j < lines.len() implies !(text::words(
            #[trigger] lines[j],
        ).len() == 2 && text::words(lines[j])[0] == name) by {
            if j < before.len() {
                assert(before[j] == lines[j]);
            }
        }
        i
    }
}

/// What is detected for a remote is what its URL gives, where that is of the forge that is asked
/// for. Beside an `upstream` remote only that one is looked at.
pub proof fn detection_reads_the_named_remote(
    listing: &str,
    lines: Vec<&str>,
    remote_name: &str,
    forge: ForgeType,
    url: Option<&str>,
    upstream_name: &str,
    upstream: Option<&str>,
    parsed: Option<DetectedForge>,
    r: Option<DetectedForge>,
)
    requires
        call_ensures(text::str_lines, (listing,), lines),
        call_ensures(find_url, (&lines, remote_name), url),
        upstream_name@ == "upstream"@,
        call_ensures(find_url, (&lines, upstream_name), upstream),
        url matches Some(url) ==> call_ensures(parse_forge_url, (url,), parsed),
        call_ensures(detect_project, (Some(listing), remote_name, forge), r),
    ensures
        r is Some <==> url is Some && parsed is Some && parsed->0.forge_type == forge && (
        upstream is None || remote_name@ == "upstream"@),
        r is Some ==> r->0.forge_type == forge && r->0.host@ == parsed->0.host@ && r->0.project@
            == parsed->0.project@ && text::opt_text(r->0.repository_name) == text::opt_text(
            parsed->0.repository_name,
        ),
{
}

/// On Azure DevOps a path of another number of parts is the project as it stands, and names no
/// repository.
pub proof fn other_azure_paths_are_the_project(
    url: &str,
    host: &str,
    path: &str,
    parts: Vec<&str>,
    r: Option<DetectedForge>,
)
    requires
        !host@.contains('/'),
        !host@.contains(':'),
        !text::ends_with(path@, ".git"@),
        call_ensures(text::str_split, (path, '/'), parts),
        parts@.len() != 4,
        url@ == "https://"@ + (host@ + seq!['/'] + path@),
        call_ensures(ForgeType::detect_from_host, (host,), Some(ForgeType::AzureDevOps)),
        call_ensures(parse_forge_url, (url,), r),
    ensures
        r is Some,
        r->0.forge_type == ForgeType::AzureDevOps,
        r->0.project@ == path@,
        r->0.repository_name is None,
{
    address_forms_agree(host@, path@);
    assert(text::slices(parts@).len() == parts@.len());
}

/// Where the remotes could not be listed nothing is detected.
pub proof fn nothing_is_detected_without_a_listing(
    remote_name: &str,
    forge: ForgeType,
    r: Option<DetectedForge>,
)
    requires
        call_ensures(detect_project, (None, remote_name, forge), r),
    ensures
        r is None,
{
}

/// A line of a listing of remotes is read exactly where it holds two words: the name and the URL.
pub proof fn two_words_are_a_remote(line: &str, words: Vec<&str>, r: Option<(&str, &str)>)
    requires
        call_ensures(text::str_words, (line,), words),
        call_ensures(read_remote_entry, (line,), r),
    ensures
        r is Some <==> words@.len() == 2,
        r matches Some((name, url)) ==> name@ == words@[0]@ && url@ == words@[1]@,
{
    let all = text::slices(words@);
    assert(all.len() == words@.len());
    if words@.len() == 2 {
        assert(all[0] == words@[0]@ && all[1] == words@[1]@);
    }
}

} // verus!
