use vstd::prelude::*;

verus! {

/// A mailbox whose contents changed on disk.
#[derive(Debug)]
pub struct FileWatcherEvent {
    pub account: String,
    pub mailbox: String,
}

/// The kind of a raw filesystem notification.
#[derive(Debug, Clone, Copy, PartialEq, Eq)]
pub enum ChangeKind {
    Create,
    Remove,
    Modify,
    Access,
    Other,
}

/// A path named by a raw notification, and whether it denotes a directory.
#[derive(Debug, Clone)]
pub struct ChangedPath {
    pub path: String,
    pub is_dir: bool,
}

// ---------------------------------------------------------------------
// Path model

/// Index of the last `c` in `s`, or -1.
pub open spec fn last_index_of(s: Seq<char>, c: char) -> int
    decreases s.len(),
{
    if s.len() == 0 {
        -1
    } else if s.last() == c {
        s.len() - 1
    } else {
        last_index_of(s.drop_last(), c)
    }
}

/// Index of the first `c` in `s`, or -1.
pub open spec fn first_index_of(s: Seq<char>, c: char) -> int
    decreases s.len(),
{
    if s.len() == 0 {
        -1
    } else if s[0] == c {
        0
    } else {
        let k = first_index_of(s.drop_first(), c);
        if k < 0 {
            -1
        } else {
            k + 1
        }
    }
}

/// The last component of a `/`-separated path.
pub open spec fn file_name(p: Seq<char>) -> Seq<char> {
    p.subrange(last_index_of(p, '/') + 1, p.len() as int)
}

/// The directory that holds the last component of a path.
pub open spec fn parent_dir(p: Seq<char>) -> Seq<char> {
    let k = last_index_of(p, '/');
    if k < 0 {
        Seq::empty()
    } else if k == 0 {
        seq!['/']
    } else {
        p.subrange(0, k)
    }
}

/// Files that change on every access and say nothing about the mailbox.
pub open spec fn is_noise_name(name: Seq<char>) -> bool {
    name == "dovecot.index.cache"@ || ".temp"@.is_prefix_of(name)
}

/// A `/`-separated path with an empty segment: it is empty, starts or ends
/// with `/`, or holds `//`.
pub open spec fn has_empty_segment(m: Seq<char>) -> bool {
    m.len() == 0 || m[0] == '/' || m.last() == '/' || exists|i: int|
        0 <= i < m.len() - 1 && #[trigger] m[i] == '/' && m[i + 1] == '/'
}

/// `dir` lies under the root `base`, matched as whole path segments.
pub open spec fn under_root(base: Seq<char>, dir: Seq<char>) -> bool {
    base.is_prefix_of(dir) && (dir.len() == base.len() || dir[base.len() as int] == '/' || (
    base.len() > 0 && base.last() == '/'))
}

/// Splits `<account>/Mail/mailboxes/<mailbox>/dbox-Mails`, with an optional
/// leading `/`, into account and mailbox: the account is one non-empty
/// segment, the mailbox is one or more non-empty segments.
pub open spec fn match_relative(rel: Seq<char>) -> Option<(Seq<char>, Seq<char>)> {
    let r = if rel.len() > 0 && rel[0] == '/' { rel.drop_first() } else { rel };
    let k = first_index_of(r, '/');
    let rest = r.subrange(k, r.len() as int);
    let head = "/Mail/mailboxes/"@;
    let tail = "/dbox-Mails"@;
    if k > 0 && rest.len() > head.len() + tail.len() && head.is_prefix_of(rest)
        && tail.is_suffix_of(rest) {
        let mailbox = rest.subrange(head.len() as int, rest.len() - tail.len());
        if has_empty_segment(mailbox) {
            None
        } else {
            Some((r.subrange(0, k), mailbox))
        }
    } else {
        None
    }
}

/// Account and still encoded mailbox named by a changed path under `base`.
pub open spec fn mailbox_location(base: Seq<char>, path: Seq<char>, is_dir: bool) -> Option<(Seq<char>, Seq<char>)> {
    let name = file_name(path);
    if name.len() == 0 || name == ".."@ || is_noise_name(name) {
        None
    } else {
        let dir = if is_dir { path } else { parent_dir(path) };
        if under_root(base, dir) {
            match_relative(dir.subrange(base.len() as int, dir.len() as int))
        } else {
            None
        }
    }
}

/// Every path of the layout `<account>/Mail/mailboxes/<mailbox>/dbox-Mails`,
/// with or without a leading `/`, is recognized, and yields its account and
/// mailbox.
pub proof fn lemma_layout_recognized(lead: Seq<char>, account: Seq<char>, mailbox: Seq<char>)
    requires
        lead == Seq::<char>::empty() || lead == seq!['/'],
        account.len() > 0,
        !account.contains('/'),
        !has_empty_segment(mailbox),
    ensures
        match_relative(lead + account + "/Mail/mailboxes/"@ + mailbox + "/dbox-Mails"@) == Some((account, mailbox)),
{
    reveal_strlit("/Mail/mailboxes/");
    reveal_strlit("/dbox-Mails");
    let head = "/Mail/mailboxes/"@;
    let tail = "/dbox-Mails"@;
    let rel = lead + account + head + mailbox + tail;
    let r = account + head + mailbox + tail;
    if lead.len() == 0 {
        assert(rel =~= r);
        assert(rel[0] == account[0]);
    } else {
        assert(rel.drop_first() =~= r);
    }
    let k = account.len() as int;
    assert(r[k] == '/');
    assert forall|j: int| 0 <= j < r.len() && (k < 0 || j < k) implies r[j] != '/' by {
        assert(r[j] == account[j]);
    }
    lemma_first_index_of(r, '/', k);
    let rest = r.subrange(k, r.len() as int);
    assert(rest =~= head + mailbox + tail);
    assert(rest.subrange(0, head.len() as int) =~= head);
    assert(rest.subrange(rest.len() - tail.len(), rest.len() as int) =~= tail);
    assert(rest.subrange(head.len() as int, rest.len() - tail.len()) =~= mailbox);
    assert(r.subrange(0, k) =~= account);
}

proof fn lemma_last_index_of(s: Seq<char>, c: char, k: int)
    requires
        -1 <= k < s.len(),
        k >= 0 ==> s[k] == c,
        forall|j: int| k < j < s.len() ==> s[j] != c,
    ensures
        last_index_of(s, c) == k,
    decreases s.len(),
{
    if s.len() > 0 && k < s.len() - 1 {
        lemma_last_index_of(s.drop_last(), c, k);
    }
}

proof fn lemma_first_index_of(s: Seq<char>, c: char, k: int)
    requires
        -1 <= k < s.len(),
        k >= 0 ==> s[k] == c,
        forall|j: int| 0 <= j < s.len() && (k < 0 || j < k) ==> s[j] != c,
    ensures
        first_index_of(s, c) == k,
    decreases s.len(),
{
    if s.len() > 0 && k != 0 {
        let t = s.drop_first();
        if k < 0 {
            lemma_first_index_of(t, c, -1);
        } else {
            lemma_first_index_of(t, c, k - 1);
        }
    }
}

fn find_last(s: &str, c: char) -> (r: Option<usize>)
    ensures
        match r {
            Some(k) => k < s@.len() && k as int == last_index_of(s@, c),
            None => last_index_of(s@, c) == -1,
        },
{
    let n = s.unicode_len();
    let mut i: usize = n;
    while i > 0
        invariant
            n == s@.len(),
            i <= n,
            forall|j: int| i <= j < n ==> s@[j] != c,
        decreases i,
    {
        if s.get_char(i - 1) == c {
            proof {
                lemma_last_index_of(s@, c, i - 1);
            }
            return Some(i - 1);
        }
        i = i - 1;
    }
    proof {
        lemma_last_index_of(s@, c, -1);
    }
    None
}

fn find_first(s: &str, c: char) -> (r: Option<usize>)
    ensures
        match r {
            Some(k) => k as int == first_index_of(s@, c),
            None => first_index_of(s@, c) == -1,
        },
{
    let n = s.unicode_len();
    let mut i: usize = 0;
    while i < n
        invariant
            n == s@.len(),
            i <= n,
            forall|j: int| 0 <= j < i ==> s@[j] != c,
        decreases n - i,
    {
        if s.get_char(i) == c {
            proof {
                lemma_first_index_of(s@, c, i as int);
            }
            return Some(i);
        }
        i = i + 1;
    }
    proof {
        lemma_first_index_of(s@, c, -1);
    }
    None
}

/// Whether `p` occurs in `s` at position `at`.
fn occurs_at(s: &str, p: &str, at: usize) -> (r: bool)
    ensures
        r == (at + p@.len() <= s@.len() && s@.subrange(at as int, at + p@.len()) == p@),
{
    let n = s.unicode_len();
    let m = p.unicode_len();
    if at > n || m > n - at {
        return false;
    }
    let mut i: usize = 0;
    while i < m
        invariant
            n == s@.len(),
            m == p@.len(),
            at + m <= n,
            i <= m,
            forall|j: int| 0 <= j < i ==> s@[at + j] == p@[j],
        decreases m - i,
    {
        if s.get_char(at + i) != p.get_char(i) {
            assert(s@.subrange(at as int, at + p@.len())[i as int] != p@[i as int]);
            return false;
        }
        i = i + 1;
    }
    assert(s@.subrange(at as int, at + p@.len()) =~= p@);
    true
}

fn has_empty_segment_text(m: &str) -> (r: bool)
    ensures
        r == has_empty_segment(m@),
{
    let n = m.unicode_len();
    if n == 0 || m.get_char(0) == '/' || m.get_char(n - 1) == '/' {
        return true;
    }
    let mut i: usize = 0;
    while i + 1 < n
        invariant
            n == m@.len(),
            n > 0,
            i < n,
            forall|j: int| 0 <= j < i ==> !(#[trigger] m@[j] == '/' && m@[j + 1] == '/'),
        decreases n - i,
    {
        if m.get_char(i) == '/' && m.get_char(i + 1) == '/' {
            return true;
        }
        i = i + 1;
    }
    false
}

proof fn lemma_first_index_of_found(s: Seq<char>, c: char)
    requires
        first_index_of(s, c) >= 0,
    ensures
        first_index_of(s, c) < s.len(),
        s[first_index_of(s, c)] == c,
    decreases s.len(),
{
    if s.len() > 0 && s[0] != c {
        lemma_first_index_of_found(s.drop_first(), c);
    }
}

/// Account and encoded mailbox of `rel`, a path relative to the watched root.
pub fn split_relative(rel: &str) -> (r: Option<(String, String)>)
    ensures
        match r {
            Some((a, m)) => match_relative(rel@) == Some((a@, m@)),
            None => match_relative(rel@).is_none(),
        },
{
    proof {
        reveal_strlit("/Mail/mailboxes/");
        reveal_strlit("/dbox-Mails");
    }
    let n0 = rel.unicode_len();
    let r = if n0 > 0 && rel.get_char(0) == '/' { rel.substring_char(1, n0) } else { rel };
    assert(r@ == if rel@.len() > 0 && rel@[0] == '/' { rel@.drop_first() } else { rel@ });
    let n = r.unicode_len();
    let k = match find_first(r, '/') {
        Some(k) => k,
        None => {
            return None;
        },
    };
    if k == 0 {
        return None;
    }
    proof {
        lemma_first_index_of_found(r@, '/');
    }
    let rest = r.substring_char(k, n);
    let head = "/Mail/mailboxes/";
    let tail = "/dbox-Mails";
    let rn = n - k;
    if rn <= 27 {
        return None;
    }
    if !occurs_at(rest, head, 0) {
        return None;
    }
    if !occurs_at(rest, tail, rn - 11) {
        return None;
    }
    let mailbox = rest.substring_char(16, rn - 11);
    if has_empty_segment_text(mailbox) {
        return None;
    }
    let account = r.substring_char(0, k);
    Some((account.to_owned(), mailbox.to_owned()))
}

// ---------------------------------------------------------------------
// Mailbox name decoding

/// Value of a character in the base64 alphabet of modified UTF-7
/// (`,` in place of `/`, which the decoder also reads), or -1.
pub open spec fn b64_value(c: char) -> int {
    if 'A' <= c && c <= 'Z' {
        c as int - 65
    } else if 'a' <= c && c <= 'z' {
        c as int - 97 + 26
    } else if '0' <= c && c <= '9' {
        c as int - 48 + 52
    } else if c == '+' {
        62
    } else if c == ',' || c == '/' {
        63
    } else {
        -1
    }
}

/// State of a left-to-right scan over an encoded name: `ok` so far, and,
/// inside an `&...-` group, whether its symbols are base64, how many there
/// are modulo 4, whether there are none, and the value of the last one.
pub ghost struct Utf7Scan {
    pub ok: bool,
    pub in_group: bool,
    pub group_good: bool,
    pub group_rem: nat,
    pub group_empty: bool,
    pub last: nat,
}

/// A group of base64 symbols whose count modulo 4 is `rem` and whose last
/// symbol is `last` decodes strictly: no lone symbol and no bits left over.
pub open spec fn group_tail_ok(rem: nat, last: nat) -> bool {
    rem != 1 && (rem == 2 ==> last % 16 == 0) && (rem == 3 ==> last % 4 == 0)
}

pub open spec fn utf7_scan_step(st: Utf7Scan, c: char) -> Utf7Scan {
    if !st.in_group {
        if c == '&' {
            Utf7Scan { ok: st.ok, in_group: true, group_good: true, group_rem: 0, group_empty: true, last: 0 }
        } else {
            st
        }
    } else if c == '-' {
        Utf7Scan {
            ok: st.ok && (st.group_empty || (st.group_good && group_tail_ok(st.group_rem, st.last))),
            in_group: false,
            ..st
        }
    } else {
        let v = b64_value(c);
        Utf7Scan {
            group_good: st.group_good && v >= 0,
            group_rem: (st.group_rem + 1) % 4,
            group_empty: false,
            last: if v >= 0 { v as nat } else { 0 },
            ..st
        }
    }
}

pub open spec fn utf7_scan(s: Seq<char>) -> Utf7Scan
    decreases s.len(),
{
    if s.len() == 0 {
        Utf7Scan { ok: true, in_group: false, group_good: true, group_rem: 0, group_empty: true, last: 0 }
    } else {
        utf7_scan_step(utf7_scan(s.drop_last()), s.last())
    }
}

/// Every closed `&...-` group of `s` is either `&-` or a strictly valid
/// base64 text: the names that the decoder accepts.
pub open spec fn utf7_decodable(s: Seq<char>) -> bool {
    utf7_scan(s).ok
}

/// The decoded form of a modified UTF-7 mailbox name.
pub uninterp spec fn imap_utf7_decoded(s: Seq<char>) -> Seq<char>;

/// Relies on utf7_imap::decode_utf7_imap, which decodes each `&...-` group
/// of a mailbox name; it unwraps the base64 decoding of each group, which
/// `utf7_decodable` makes succeed.
#[verifier::external_body]
fn decode_mailbox_name(s: String) -> (r: String)
    requires
        utf7_decodable(s@),
    ensures
        r@ == imap_utf7_decoded(s@),
{
    utf7_imap::decode_utf7_imap(s)
}

fn b64_symbol(c: char) -> (r: i32)
    ensures
        r as int == b64_value(c),
{
    if 'A' <= c && c <= 'Z' {
        (c as u32 - 65) as i32
    } else if 'a' <= c && c <= 'z' {
        (c as u32 - 97 + 26) as i32
    } else if '0' <= c && c <= '9' {
        (c as u32 - 48 + 52) as i32
    } else if c == '+' {
        62
    } else if c == ',' || c == '/' {
        63
    } else {
        -1
    }
}

/// Whether the mailbox name `s` can be decoded.
pub fn is_utf7_decodable(s: &str) -> (r: bool)
    ensures
        r == utf7_decodable(s@),
{
    let n = s.unicode_len();
    let mut ok = true;
    let mut in_group = false;
    let mut group_good = true;
    let mut group_rem: u8 = 0;
    let mut group_empty = true;
    let mut last: u32 = 0;
    let mut i: usize = 0;
    while i < n
        invariant
            n == s@.len(),
            i <= n,
            group_rem < 4,
            last < 64,
            (Utf7Scan { ok, in_group, group_good, group_rem: group_rem as nat, group_empty, last: last as nat })
                == utf7_scan(s@.subrange(0, i as int)),
        decreases n - i,
    {
        let c = s.get_char(i);
        assert(s@.subrange(0, i + 1).drop_last() =~= s@.subrange(0, i as int));
        if !in_group {
            if c == '&' {
                in_group = true;
                group_good = true;
                group_rem = 0;
                group_empty = true;
                last = 0;
            }
        } else if c == '-' {
            ok = ok && (group_empty || (group_good && group_rem != 1 && (group_rem != 2 || last % 16 == 0)
                && (group_rem != 3 || last % 4 == 0)));
            in_group = false;
        } else {
            let v = b64_symbol(c);
            group_good = group_good && v >= 0;
            group_rem = (group_rem + 1) % 4;
            group_empty = false;
            last = if v >= 0 { v as u32 } else { 0 };
        }
        i = i + 1;
    }
    assert(s@.subrange(0, n as int) =~= s@);
    ok
}

// ---------------------------------------------------------------------
// Classification

impl View for FileWatcherEvent {
    type V = (Seq<char>, Seq<char>);

    open spec fn view(&self) -> (Seq<char>, Seq<char>) {
        (self.account@, self.mailbox@)
    }
}

/// The event that a change of `path` under `base` yields: the mailbox
/// location with its name decoded, when that name can be decoded.
pub open spec fn classified(base: Seq<char>, path: Seq<char>, is_dir: bool) -> Option<(Seq<char>, Seq<char>)> {
    match mailbox_location(base, path, is_dir) {
        Some((account, mailbox)) => if utf7_decodable(mailbox) {
            Some((account, imap_utf7_decoded(mailbox)))
        } else {
            None
        },
        None => None,
    }
}

/// Notification kinds that can signal a changed mailbox.
pub open spec fn is_relevant(kind: ChangeKind) -> bool {
    kind == ChangeKind::Create || kind == ChangeKind::Remove || kind == ChangeKind::Modify
}

/// The events of a list of changed paths, in order.
pub open spec fn classified_all(base: Seq<char>, paths: Seq<ChangedPath>) -> Seq<(Seq<char>, Seq<char>)>
    decreases paths.len(),
{
    if paths.len() == 0 {
        Seq::empty()
    } else {
        let prev = classified_all(base, paths.drop_last());
        match classified(base, paths.last().path@, paths.last().is_dir) {
            Some(e) => prev.push(e),
            None => prev,
        }
    }
}

fn same_text(a: &str, b: &str) -> (r: bool)
    ensures
        r == (a@ == b@),
{
    if a.unicode_len() != b.unicode_len() {
        return false;
    }
    let r = occurs_at(a, b, 0);
    assert(a@.subrange(0, a@.len() as int) =~= a@);
    r
}

/// Account and still encoded mailbox of a change of `path` under `basepath`:
/// noise files are skipped, a file stands for its directory.
pub fn split_mailbox_path(basepath: &str, path: &str, is_dir: bool) -> (r: Option<(String, String)>)
    ensures
        match r {
            Some((a, m)) => mailbox_location(basepath@, path@, is_dir) == Some((a@, m@)),
            None => mailbox_location(basepath@, path@, is_dir).is_none(),
        },
{
    proof {
        reveal_strlit("");
        reveal_strlit("/");
    }
    let n = path.unicode_len();
    let slash = find_last(path, '/');
    let start = match slash {
        Some(k) => k + 1,
        None => 0,
    };
    let name = path.substring_char(start, n);
    assert(name@ == file_name(path@));
    if name.unicode_len() == 0 || same_text(name, "..") || same_text(name, "dovecot.index.cache")
        || occurs_at(name, ".temp", 0) {
        return None;
    }
    let dir = if is_dir {
        path
    } else {
        match slash {
            None => "",
            Some(k) => if k == 0 {
                "/"
            } else {
                path.substring_char(0, k)
            },
        }
    };
    assert(dir@ == if is_dir { path@ } else { parent_dir(path@) });
    let base_len = basepath.unicode_len();
    if !occurs_at(dir, basepath, 0) {
        return None;
    }
    let dir_len = dir.unicode_len();
    if !(dir_len == base_len || dir.get_char(base_len) == '/' || (base_len > 0 && basepath.get_char(base_len - 1)
        == '/')) {
        return None;
    }
    split_relative(dir.substring_char(base_len, dir_len))
}

/// The event that a change of `path` under `basepath` yields, if any.
pub fn produce_event(basepath: &str, path: &str, is_dir: bool) -> (r: Option<FileWatcherEvent>)
    ensures
        match r {
            Some(e) => classified(basepath@, path@, is_dir) == Some(e@),
            None => classified(basepath@, path@, is_dir).is_none(),
        },
{
    match split_mailbox_path(basepath, path, is_dir) {
        Some((account, mailbox)) => {
            if is_utf7_decodable(mailbox.as_str()) {
                Some(FileWatcherEvent { account, mailbox: decode_mailbox_name(mailbox) })
            } else {
                None
            }
        },
        None => None,
    }
}

/// The events of one raw notification, one per qualifying path and in the
/// order of its paths; none for kinds other than create, remove and modify.
pub fn handle_event(kind: ChangeKind, basepath: &str, paths: &Vec<ChangedPath>) -> (r: Vec<FileWatcherEvent>)
    ensures
        r@.map_values(|e: FileWatcherEvent| e@) == if is_relevant(kind) {
            classified_all(basepath@, paths@)
        } else {
            Seq::empty()
        },
{
    let mut events: Vec<FileWatcherEvent> = Vec::new();
    match kind {
        ChangeKind::Create | ChangeKind::Remove | ChangeKind::Modify => {},
        ChangeKind::Access | ChangeKind::Other => {
            assert(events@.map_values(|e: FileWatcherEvent| e@) =~= Seq::empty());
            return events;
        },
    }
    let mut i: usize = 0;
    while i < paths.len()
        invariant
            i <= paths@.len(),
            events@.map_values(|e: FileWatcherEvent| e@) == classified_all(basepath@, paths@.subrange(0, i as int)),
        decreases paths@.len() - i,
    {
        assert(paths@.subrange(0, i + 1).drop_last() =~= paths@.subrange(0, i as int));
        let changed = &paths[i];
        match produce_event(basepath, changed.path.as_str(), changed.is_dir) {
            Some(e) => {
                let ghost before = events@;
                events.push(e);
                assert(events@.map_values(|e: FileWatcherEvent| e@) =~= before.map_values(|e: FileWatcherEvent| e@).push(e@));
            },
            None => {},
        }
        i = i + 1;
    }
    assert(paths@.subrange(0, paths@.len() as int) =~= paths@);
    events
}

} // verus!
