//! Changes and bookmarks of a Jujutsu repository.
use crate::error;
use crate::error::Error;
use crate::style;
use crate::text;
use vstd::prelude::*;
use vstd::utf8::*;

verus! {

// ---------------------------------------------------------------------------
// Bookmarks
// ---------------------------------------------------------------------------
/// Information about a bookmark. Can be local (maybe tracked) or remote-only.
#[derive(Debug, PartialEq, Eq, Hash)]
pub enum BookmarkInfo {
    /// A bookmark that is local to the repository, and may be tracked against a remote.
    Local {
        /// The name of the bookmark, e.g. "feature/my-feature".
        name: String,
        /// Whether the remote's bookmark differs from the local one.
        remote_different_from_local: bool,
        /// Whether the bookmark is tracked against a remote repository.
        tracks_remote: bool,
    },
    /// A bookmark that is only on a remote, and not tracked with a local bookmark.
    Remote {
        /// The name of the bookmark, e.g. "feature/my-feature".
        name: String,
        /// The remote repository name, e.g. "origin".
        remote: String,
    },
}

/// What a [`BookmarkInfo`] says.
pub enum BookmarkView {
    Local { name: Seq<char>, remote_different_from_local: bool, tracks_remote: bool },
    Remote { name: Seq<char>, remote: Seq<char> },
}

impl BookmarkView {
    /// The name, without a remote.
    pub open spec fn name(self) -> Seq<char> {
        match self {
            BookmarkView::Local { name, .. } => name,
            BookmarkView::Remote { name, .. } => name,
        }
    }

    /// The name, with the remote of a remote bookmark.
    pub open spec fn full_name(self) -> Seq<char> {
        match self {
            BookmarkView::Local { name, .. } => name,
            BookmarkView::Remote { name, remote } => name + "@"@ + remote,
        }
    }
}

impl View for BookmarkInfo {
    type V = BookmarkView;

    open spec fn view(&self) -> BookmarkView {
        match self {
            BookmarkInfo::Local { name, remote_different_from_local, tracks_remote } => {
                BookmarkView::Local {
                    name: name@,
                    remote_different_from_local: *remote_different_from_local,
                    tracks_remote: *tracks_remote,
                }
            },
            BookmarkInfo::Remote { name, remote } => BookmarkView::Remote {
                name: name@,
                remote: remote@,
            },
        }
    }
}

/// What a list of bookmarks says.
pub open spec fn bookmark_views(v: Seq<BookmarkInfo>) -> Seq<BookmarkView> {
    Seq::new(v.len(), |i: int| v[i]@)
}

/// The bookmark that a non-empty text names: trailing asterisks mark a difference from
/// the remote, and what follows the last at sign is a remote.
pub open spec fn bookmark_of(s: Seq<char>) -> BookmarkView {
    let trimmed = text::without_suffixes(s, "*"@);
    let at = text::rfind(trimmed, '@');
    if at >= 0 {
        BookmarkView::Remote { name: trimmed.take(at), remote: trimmed.skip(at + 1) }
    } else {
        BookmarkView::Local {
            name: trimmed,
            remote_different_from_local: text::ends_with(s, "*"@),
            tracks_remote: false,
        }
    }
}

impl Clone for BookmarkInfo {
    fn clone(&self) -> (r: Self)
        ensures
            r@ == self@,
    {
        match self {
            BookmarkInfo::Local { name, remote_different_from_local, tracks_remote } => {
                BookmarkInfo::Local {
                    name: name.clone(),
                    remote_different_from_local: *remote_different_from_local,
                    tracks_remote: *tracks_remote,
                }
            },
            BookmarkInfo::Remote { name, remote } => BookmarkInfo::Remote {
                name: name.clone(),
                remote: remote.clone(),
            },
        }
    }
}

impl BookmarkInfo {
    /// The name of the bookmark. Does not include a remote.
    pub fn name(&self) -> (r: &str)
        ensures
            r@ == self@.name(),
    {
        match self {
            BookmarkInfo::Local { name, .. } => name.as_str(),
            BookmarkInfo::Remote { name, .. } => name.as_str(),
        }
    }

    /// The full name of the bookmark, including the remote of a remote bookmark.
    pub fn full_name(&self) -> (r: String)
        ensures
            r@ == self@.full_name(),
    {
        match self {
            BookmarkInfo::Local { name, .. } => name.clone(),
            BookmarkInfo::Remote { name, remote } => name.clone().concat("@").concat(
                remote.as_str(),
            ),
        }
    }

    /// Whether the bookmark is a local bookmark.
    pub fn is_local(&self) -> (r: bool)
        ensures
            r == (self@ is Local),
    {
        match self {
            BookmarkInfo::Local { .. } => true,
            BookmarkInfo::Remote { .. } => false,
        }
    }

    /// Whether the bookmark is a remote bookmark.
    pub fn is_remote(&self) -> (r: bool)
        ensures
            r == (self@ is Remote),
    {
        match self {
            BookmarkInfo::Local { .. } => false,
            BookmarkInfo::Remote { .. } => true,
        }
    }

    /// Whether the bookmark is local and tracked.
    pub fn is_tracked(&self) -> (r: bool)
        ensures
            r == (self@ matches BookmarkView::Local { tracks_remote, .. } && tracks_remote),
    {
        match self {
            BookmarkInfo::Local { tracks_remote, .. } => *tracks_remote,
            BookmarkInfo::Remote { .. } => false,
        }
    }

    /// Reads a bookmark as `jj` writes it.
    pub fn parse(s: &str) -> (r: Result<BookmarkInfo, Error>)
        ensures
            s@.len() == 0 ==> error::parse_error(r, "Empty bookmark name"@),
            s@.len() > 0 ==> r is Ok && r->Ok_0@ == bookmark_of(s@),
    {
        if s.is_empty() {
            return Err(Error::Parse { message: "Empty bookmark name".to_owned() });
        }
        let remote_different_from_local = text::str_ends_with(s, "*");
        let trimmed = text::trim_end_matches(s, "*");
        match text::str_rfind(trimmed, '@') {
            Some(at) => Ok(
                BookmarkInfo::Remote {
                    name: text::str_take(trimmed, at).to_owned(),
                    remote: text::str_skip(trimmed, at + 1).to_owned(),
                },
            ),
            None => Ok(
                BookmarkInfo::Local {
                    name: trimmed.to_owned(),
                    remote_different_from_local,
                    tracks_remote: false,
                },
            ),
        }
    }
}

impl core::str::FromStr for BookmarkInfo {
    type Err = Error;

    /// Reads a bookmark as `jj` writes it.
    fn from_str(s: &str) -> (r: Result<Self, Error>)
        ensures
            s@.len() == 0 ==> error::parse_error(r, "Empty bookmark name"@),
            s@.len() > 0 ==> r is Ok && r->Ok_0@ == bookmark_of(s@),
    {
        BookmarkInfo::parse(s)
    }
}

/// A remote bookmark whose remote holds no at sign and ends in no asterisk reads back
/// from its full name.
pub proof fn full_name_reads_back(b: BookmarkView)
    requires
        b is Remote,
        !b->remote.contains('@'),
        b->remote.len() > 0 ==> b->remote.last() != '*',
    ensures
        b.full_name().len() > 0,
        bookmark_of(b.full_name()) == b,
{
    reveal_strlit("@");
    reveal_strlit("*");
    let name = b.name();
    let remote = b->remote;
    let s = b.full_name();
    assert(s == name.push('@') + remote);
    assert(s.last() != '*');
    assert(!text::ends_with(s, "*"@)) by {
        if text::ends_with(s, "*"@) {
            assert(s.subrange(s.len() - 1, s.len() as int)[0] == '*');
        }
    }
    text::lemma_rfind(s, '@');
    assert(s[name.len() as int] == '@');
    let at = text::rfind(s, '@');
    if at > name.len() {
        assert(s[at] == remote[at - name.len() - 1]);
    }
    assert(s.take(at) == name);
    assert(s.skip(at + 1) == remote);
}

/// A local bookmark whose name holds no at sign and ends in no asterisk reads back from its
/// name, as one that is not known to differ from a remote or to be tracked.
pub proof fn local_name_reads_back(name: Seq<char>)
    requires
        name.len() > 0,
        !name.contains('@'),
        name.last() != '*',
    ensures
        bookmark_of(name) == (BookmarkView::Local {
            name,
            remote_different_from_local: false,
            tracks_remote: false,
        }),
        bookmark_of(name).full_name() == name,
{
    reveal_strlit("*");
    assert(!text::ends_with(name, "*"@)) by {
        if text::ends_with(name, "*"@) {
            assert(name.subrange(name.len() - 1, name.len() as int)[0] == '*');
        }
    }
    text::lemma_rfind(name, '@');
    let at = text::rfind(name, '@');
    if at >= 0 {
        assert(name.contains(name[at]));
    }
}

// ---------------------------------------------------------------------------
// Changes
// ---------------------------------------------------------------------------
/// A change of the repository.
#[derive(Debug, PartialEq, Eq, Hash)]
pub struct Change {
    /// Git commit ID.
    pub commit_id: String,
    /// Jujutsu change ID.
    pub change_id: String,
    /// The change description.
    pub description: String,
    /// The IDs of the parent commits.
    pub parent_commit_ids: Vec<String>,
    /// The bookmarks that are part of this change.
    pub bookmarks: Vec<BookmarkInfo>,
    /// Whether there *will* be a bookmark created for this change.
    pub pending_bookmark: bool,
}

/// What a [`Change`] says.
#[verifier::ext_equal]
pub struct ChangeView {
    pub commit_id: Seq<char>,
    pub change_id: Seq<char>,
    pub description: Seq<char>,
    pub parent_commit_ids: Seq<Seq<char>>,
    pub bookmarks: Seq<BookmarkView>,
    pub pending_bookmark: bool,
}

impl View for Change {
    type V = ChangeView;

    open spec fn view(&self) -> ChangeView {
        ChangeView {
            commit_id: self.commit_id@,
            change_id: self.change_id@,
            description: self.description@,
            parent_commit_ids: text::texts(self.parent_commit_ids@),
            bookmarks: bookmark_views(self.bookmarks@),
            pending_bookmark: self.pending_bookmark,
        }
    }
}

/// What a list of changes says.
pub open spec fn change_views(v: Seq<Change>) -> Seq<ChangeView> {
    Seq::new(v.len(), |i: int| v[i]@)
}

/// The first line of a description, trimmed; empty for an empty description.
pub open spec fn first_line(description: Seq<char>) -> Seq<char> {
    let all = text::lines(description);
    if all.len() > 0 {
        text::trim(all[0])
    } else {
        Seq::empty()
    }
}

/// What follows the first newline of a description, trimmed; nothing, where it holds no
/// newline.
pub open spec fn after_first_line(description: Seq<char>) -> Seq<char> {
    match text::cut(description, '\n') {
        Some((_, rest)) => text::trim(rest),
        None => Seq::empty(),
    }
}

/// The first eight bytes of a change ID.
pub open spec fn short_id(id: Seq<char>) -> Seq<char> {
    decode_utf8(encode_utf8(id).subrange(0, 8))
}

/// A change ID that can be shortened to its first eight bytes.
pub open spec fn has_short_id(id: Seq<char>) -> bool {
    encode_utf8(id).len() >= 8 && is_char_boundary(encode_utf8(id), 8)
}

/// An ASCII change ID of at least eight characters is shortened to the first eight.
pub proof fn ascii_short_id(id: Seq<char>)
    requires
        is_ascii_chars(id),
        id.len() >= 8,
    ensures
        has_short_id(id),
        short_id(id) == id.take(8),
{
    is_ascii_chars_encode_utf8(id);
    let bytes = encode_utf8(id);
    let head = id.take(8);
    assert(is_ascii_chars(head)) by {
        assert(forall|i: int| 0 <= i < head.len() ==> head[i] == id[i]);
    }
    is_ascii_chars_encode_utf8(head);
    assert(encode_utf8(head) == bytes.subrange(0, 8));
    encode_utf8_decode_utf8(head);
    encode_utf8_valid_utf8(id);
    if bytes.len() > 8 {
        is_char_boundary_iff_not_is_continuation_byte(bytes, 8);
        assert(bytes[8] == id[8] as u8);
        assert((id[8] as u32) < 128);
        let b = bytes[8];
        assert(b < 128);
        assert(!is_continuation_byte(b)) by {
            assert(b < 128 ==> b & 0xC0 != 0x80) by (bit_vector);
        }
    } else {
        is_char_boundary_start_end_of_seq(bytes);
    }
}

/// Shortens a change ID to its first eight bytes.
pub fn shorten<'a>(id: &'a str) -> (r: &'a str)
    requires
        has_short_id(id@),
    ensures
        r@ == short_id(id@),
{
    let (head, _) = id.split_at(8);
    proof {
        encode_utf8_decode_utf8(head@);
    }
    head
}

/// A copy of a list of bookmarks.
pub fn clone_bookmarks(list: &Vec<BookmarkInfo>) -> (r: Vec<BookmarkInfo>)
    ensures
        bookmark_views(r@) == bookmark_views(list@),
{
    let mut r: Vec<BookmarkInfo> = Vec::new();
    let n = list.len();
    let mut i: usize = 0;
    while i < n
        invariant
            n == list@.len(),
            i <= n,
            bookmark_views(r@) == bookmark_views(list@).take(i as int),
        decreases n - i,
    {
        let b = list[i].clone();
        let ghost before = bookmark_views(r@);
        r.push(b);
        assert(bookmark_views(r@) == before.push(b@));
        i += 1;
    }
    assert(bookmark_views(list@).take(n as int) == bookmark_views(list@));
    r
}

impl Clone for Change {
    fn clone(&self) -> (r: Self)
        ensures
            r@ == self@,
    {
        Change {
            commit_id: self.commit_id.clone(),
            change_id: self.change_id.clone(),
            description: self.description.clone(),
            parent_commit_ids: text::clone_strings(&self.parent_commit_ids),
            bookmarks: clone_bookmarks(&self.bookmarks),
            pending_bookmark: self.pending_bookmark,
        }
    }
}

impl Change {
    /// The first line of the description, trimmed.
    pub fn description_first_line(&self) -> (r: &str)
        ensures
            r@ == first_line(self@.description),
    {
        let all = text::str_lines(self.description.as_str());
        assert(text::slices(all@).len() == all@.len());
        if all.len() > 0 {
            assert(text::slices(all@)[0] == all@[0]@);
            text::str_trim(all[0])
        } else {
            proof {
                reveal_strlit("");
            }
            assert(""@ == Seq::<char>::empty());
            ""
        }
    }

    /// The first line of the description in quotes, or a highlighted notice where it is
    /// empty.
    pub fn description_first_line_quoted_or_empty(&self) -> (r: String)
        ensures
            first_line(self@.description).len() == 0 ==> r@ == style::yellow_text(
                "(no description set)"@,
            ),
            first_line(self@.description).len() > 0 ==> r@ == "\""@ + first_line(
                self@.description,
            ) + "\""@,
    {
        let description = self.description_first_line();
        if description.is_empty() {
            style::yellow("(no description set)")
        } else {
            "\"".to_owned().concat(description).concat("\"")
        }
    }

    /// The description without its first line, trimmed. Nothing is left of a description of
    /// one line.
    pub fn description_not_first_line(&self) -> (r: &str)
        ensures
            r@ == after_first_line(self@.description),
    {
        proof {
            reveal_strlit("");
        }
        match text::split_once(self.description.as_str(), '\n') {
            Some((_, rest)) => text::str_trim(rest),
            None => "",
        }
    }

    /// The first eight bytes of the change ID.
    pub fn change_id_short(&self) -> (r: &str)
        requires
            has_short_id(self@.change_id),
        ensures
            r@ == short_id(self@.change_id),
    {
        shorten(self.change_id.as_str())
    }

    /// Turns a pending bookmark into a real bookmark in memory.
    pub fn solidify_bookmark(&mut self, bookmark_name: &str)
        requires
            old(self).pending_bookmark,
        ensures
            final(self)@ == (ChangeView {
                bookmarks: old(self)@.bookmarks.push(
                    BookmarkView::Local {
                        name: bookmark_name@,
                        remote_different_from_local: false,
                        tracks_remote: true,
                    },
                ),
                pending_bookmark: false,
                ..old(self)@
            }),
    {
        let ghost before = self@;
        let info = BookmarkInfo::Local {
            name: bookmark_name.to_owned(),
            remote_different_from_local: false,
            tracks_remote: true,
        };
        let ghost added = info@;
        self.bookmarks.push(info);
        assert(bookmark_views(self.bookmarks@) == before.bookmarks.push(added));
        self.pending_bookmark = false;
    }
}

// ---------------------------------------------------------------------------
// Laws
// ---------------------------------------------------------------------------
/// A bookmark says its own name. Its full name is the name of a local bookmark, and the name, an at
/// sign and the remote of a remote one.
pub proof fn bookmark_says_its_name(
    b: BookmarkInfo,
    name: &str,
    full: String,
    local: bool,
    on_remote: bool,
    followed: bool,
)
    requires
        call_ensures(BookmarkInfo::name, (&b,), name),
        call_ensures(BookmarkInfo::full_name, (&b,), full),
        call_ensures(BookmarkInfo::is_local, (&b,), local),
        call_ensures(BookmarkInfo::is_remote, (&b,), on_remote),
        call_ensures(BookmarkInfo::is_tracked, (&b,), followed),
    ensures
        b matches BookmarkInfo::Local { name: n, tracks_remote, .. } ==> name@ == n@ && full@ == n@
            && local && !on_remote && followed == tracks_remote,
        b matches BookmarkInfo::Remote { name: n, remote } ==> name@ == n@ && full@ == n@ + "@"@
            + remote@ && !local && on_remote && !followed,
{
}

/// A name without an at sign that ends in no asterisk is read as a local bookmark of that name, which
/// differs from its remote exactly where asterisks follow the name.
pub proof fn plain_name_is_a_local_bookmark(
    s: &str,
    name: Seq<char>,
    stars: nat,
    r: Result<BookmarkInfo, Error>,
)
    requires
        call_ensures(BookmarkInfo::parse, (s,), r),
        name.len() > 0,
        !name.contains('@'),
        name.last() != '*',
        s@ == name + Seq::new(stars, |i: int| '*'),
    ensures
        r matches Ok(BookmarkInfo::Local { name: n, remote_different_from_local, tracks_remote }) && n@
            == name && remote_different_from_local == (stars > 0) && !tracks_remote,
{
    lemma_stars(name, stars);
    text::lemma_rfind(name, '@');
    let at = text::rfind(name, '@');
    if at >= 0 {
        assert(name.contains(name[at]));
    }
    reveal_strlit("*");
    let n = s@.len() as int;
    if stars > 0 {
        assert(s@.subrange(n - 1, n) =~= "*"@);
    } else {
        assert(s@ =~= name);
        if text::ends_with(s@, "*"@) {
            assert(s@.subrange(n - 1, n)[0] == '*');
        }
    }
}

proof fn lemma_stars(name: Seq<char>, stars: nat)
    requires
        name.len() > 0,
        name.last() != '*',
    ensures
        text::without_suffixes(name + Seq::new(stars, |i: int| '*'), "*"@) == name,
    decreases stars,
{
    reveal_strlit("*");
    let s = name + Seq::new(stars, |i: int| '*');
    let n = s.len() as int;
    if stars == 0 {
        assert(s =~= name);
        if text::ends_with(s, "*"@) {
            assert(s.subrange(n - 1, n)[0] == '*');
        }
    } else {
        lemma_stars(name, (stars - 1) as nat);
        assert(s.subrange(n - 1, n) =~= "*"@);
        assert(s.take(n - 1) =~= name + Seq::new((stars - 1) as nat, |i: int| '*'));
    }
}

/// What stands behind the last at sign is read as the remote, and all before it as the name, whatever
/// asterisks follow.
pub proof fn name_with_remote_is_a_remote_bookmark(
    s: &str,
    name: Seq<char>,
    remote: Seq<char>,
    stars: nat,
    r: Result<BookmarkInfo, Error>,
)
    requires
        call_ensures(BookmarkInfo::parse, (s,), r),
        !remote.contains('@'),
        remote.len() > 0 ==> remote.last() != '*',
        s@ == name + seq!['@'] + remote + Seq::new(stars, |i: int| '*'),
    ensures
        r matches Ok(BookmarkInfo::Remote { name: n, remote: m }) && n@ == name && m@ == remote,
{
    let full = name + seq!['@'] + remote;
    lemma_stars(full, stars);
    text::lemma_rfind(full, '@');
    assert(full[name.len() as int] == '@');
    let at = text::rfind(full, '@');
    if at > name.len() {
        assert(full[at] == remote[at - name.len() - 1]);
        assert(remote.contains(remote[at - name.len() - 1]));
    }
    assert(full.take(at) =~= name);
    assert(full.skip(at + 1) =~= remote);
}

/// Nothing is no bookmark, and everything else is one.
pub proof fn only_nothing_is_no_bookmark(s: &str, r: Result<BookmarkInfo, Error>)
    requires
        call_ensures(BookmarkInfo::parse, (s,), r),
    ensures
        r is Ok <==> s@.len() > 0,
{
}

/// The first line of a description is what stands before its first newline, trimmed; what is not the
/// first line is what stands behind it, trimmed. A description of one line has no more than that.
pub proof fn description_falls_into_two_parts(
    c: Change,
    first: &str,
    first_trimmed: &str,
    rest: &str,
    rest_trimmed: &str,
    shown: &str,
    shown_rest: &str,
    shown_quoted: String,
)
    requires
        !first@.contains('\n'),
        first@.len() > 0,
        first@.last() != '\r',
        c.description@ == first@ + seq!['\n'] + rest@ || (c.description@ == first@ && rest@.len() == 0),
        call_ensures(text::str_trim, (first,), first_trimmed),
        call_ensures(text::str_trim, (rest,), rest_trimmed),
        call_ensures(Change::description_first_line, (&c,), shown),
        call_ensures(Change::description_not_first_line, (&c,), shown_rest),
        call_ensures(Change::description_first_line_quoted_or_empty, (&c,), shown_quoted),
    ensures
        shown@ == first_trimmed@,
        shown_rest@ == rest_trimmed@,
        shown@.len() > 0 ==> shown_quoted@ == "\""@ + first_trimmed@ + "\""@,
        shown@.len() == 0 ==> text::contains_text(shown_quoted@, "(no description set)"@),
{
    let d = c.description@;
    let n = first@.len() as int;
    text::lemma_find(d, '\n');
    let at = text::find(d, '\n');
    assert(d[0] == first@[0]);
    if d == first@ + seq!['\n'] + rest@ {
        assert(d[n] == '\n');
        if at < n {
            assert(d[at] == first@[at]);
            assert(first@.contains(first@[at]));
        }
        assert(at == n);
        assert(d.take(n) =~= first@);
        assert(d.skip(n + 1) =~= rest@);
        assert(text::lines(d)[0] == first@);
    } else {
        if at < d.len() {
            assert(first@.contains(first@[at]));
        }
        assert(text::lines(d) =~= seq![first@]);
        text::trimming_takes_white_off(rest, rest_trimmed);
        assert(rest_trimmed@ =~= Seq::<char>::empty());
    }
    style::lemma_yellow_shows("(no description set)"@);
}

/// A change ID of ASCII characters is shortened to its first eight.
pub proof fn short_id_is_the_first_eight(c: Change, r: &str, i: int)
    requires
        is_ascii_chars(c.change_id@),
        c.change_id@.len() >= 8,
        call_ensures(Change::change_id_short, (&c,), r),
    ensures
        r@.len() == 8,
        0 <= i < 8 ==> r@[i] == c.change_id@[i],
{
    ascii_short_id(c.change_id@);
}

/// A copy says the same in every field.
pub proof fn copies_say_the_same(c: Change, r: Change, b: BookmarkInfo, d: BookmarkInfo, i: int)
    requires
        call_ensures(Change::clone, (&c,), r),
        call_ensures(BookmarkInfo::clone, (&b,), d),
    ensures
        r.commit_id@ == c.commit_id@,
        r.change_id@ == c.change_id@,
        r.description@ == c.description@,
        r.pending_bookmark == c.pending_bookmark,
        r.parent_commit_ids@.len() == c.parent_commit_ids@.len(),
        0 <= i < c.parent_commit_ids@.len() ==> r.parent_commit_ids@[i]@ == c.parent_commit_ids@[i]@,
        r.bookmarks@.len() == c.bookmarks@.len(),
        0 <= i < c.bookmarks@.len() ==> r.bookmarks@[i]@ == c.bookmarks@[i]@,
        b matches BookmarkInfo::Local { name, remote_different_from_local, tracks_remote } ==> (
        d matches BookmarkInfo::Local {
            name: n,
            remote_different_from_local: x,
            tracks_remote: y,
        } && n@ == name@ && x == remote_different_from_local && y == tracks_remote),
        b matches BookmarkInfo::Remote { name, remote } ==> (d matches BookmarkInfo::Remote {
            name: n,
            remote: m,
        } && n@ == name@ && m@ == remote@),
{
    assert(r@ == c@);
    assert(text::texts(r.parent_commit_ids@) == text::texts(c.parent_commit_ids@));
    assert(text::texts(r.parent_commit_ids@).len() == r.parent_commit_ids@.len());
    assert(text::texts(c.parent_commit_ids@).len() == c.parent_commit_ids@.len());
    assert(bookmark_views(r.bookmarks@).len() == r.bookmarks@.len());
    assert(bookmark_views(c.bookmarks@).len() == c.bookmarks@.len());
    if 0 <= i < c.parent_commit_ids@.len() {
        assert(text::texts(r.parent_commit_ids@)[i] == r.parent_commit_ids@[i]@);
        assert(text::texts(c.parent_commit_ids@)[i] == c.parent_commit_ids@[i]@);
    }
    if 0 <= i < c.bookmarks@.len() {
        assert(bookmark_views(r.bookmarks@)[i] == r.bookmarks@[i]@);
        assert(bookmark_views(c.bookmarks@)[i] == c.bookmarks@[i]@);
    }
}

/// A pending bookmark becomes the last bookmark of the change: local, of the given name, no different
/// from its remote and tracked. Nothing else changes but that none is pending any more.
pub proof fn pending_bookmark_becomes_real(c: &mut Change, name: &str, i: int)
    requires
        call_ensures(Change::solidify_bookmark, (c, name), ()),
    ensures
        final(c).commit_id@ == old(c).commit_id@,
        final(c).change_id@ == old(c).change_id@,
        final(c).description@ == old(c).description@,
        final(c).parent_commit_ids@.len() == old(c).parent_commit_ids@.len(),
        !final(c).pending_bookmark,
        final(c).bookmarks@.len() == old(c).bookmarks@.len() + 1,
        0 <= i < old(c).bookmarks@.len() ==> final(c).bookmarks@[i]@ == old(c).bookmarks@[i]@,
        final(c).bookmarks@.last() matches BookmarkInfo::Local {
            name: n,
            remote_different_from_local,
            tracks_remote,
        } && n@ == name@ && !remote_different_from_local && tracks_remote,
{
    let before = bookmark_views(old(c).bookmarks@);
    let after = bookmark_views(final(c).bookmarks@);
    assert(before.len() == old(c).bookmarks@.len());
    assert(after.len() == final(c).bookmarks@.len());
    assert(text::texts(old(c).parent_commit_ids@).len() == old(c).parent_commit_ids@.len());
    assert(text::texts(final(c).parent_commit_ids@).len() == final(c).parent_commit_ids@.len());
    let n = before.len() as int;
    assert(after[n] == final(c).bookmarks@[n]@);
    if 0 <= i < n {
        assert(after[i] == final(c).bookmarks@[i]@);
        assert(before[i] == old(c).bookmarks@[i]@);
    }
}

/// A description that is empty, or starts with a newline, has an empty first line.
pub proof fn first_line_may_be_empty(
    c: Change,
    rest: &str,
    rest_trimmed: &str,
    shown: &str,
    shown_rest: &str,
)
    requires
        c.description@ == seq!['\n'] + rest@ || (c.description@.len() == 0 && rest@.len() == 0),
        call_ensures(text::str_trim, (rest,), rest_trimmed),
        call_ensures(Change::description_first_line, (&c,), shown),
        call_ensures(Change::description_not_first_line, (&c,), shown_rest),
    ensures
        shown@.len() == 0,
        shown_rest@ == rest_trimmed@,
{
    let d = c.description@;
    text::lemma_find(d, '\n');
    text::trimming_takes_white_off(rest, rest_trimmed);
    if d.len() > 0 {
        assert(d[0] == '\n');
        assert(text::find(d, '\n') == 0);
        assert(d.take(0) =~= Seq::<char>::empty());
        assert(d.skip(1) =~= rest@);
        let first = text::lines(d)[0];
        assert(first =~= Seq::<char>::empty());
        text::lemma_trim_ends(first);
    } else {
        assert(rest_trimmed@ =~= Seq::<char>::empty());
    }
}

} // verus!
