//! The bundle: an ordered collection of (path, content) entries, its binary
//! wire format, and the path filter that decides which files enter it.
use vstd::prelude::*;
use vstd::utf8::{decode_utf8, encode_utf8, encode_utf8_decode_utf8, encode_utf8_valid_utf8, valid_utf8};
use crate::bytes::{
    be_bytes, be_value, bytes_ends_with, bytes_eq, bytes_starts_with, copy_range, ends_with,
    lemma_be_round_trip, push_all, push_be_u64, read_be_u64, starts_with,
    string_from_utf8,
};

verus! {

/// Why a byte buffer is not a well-formed bundle.
#[derive(Debug, Clone, Copy, PartialEq, Eq, Structural)]
pub enum BundleError {
    /// Fewer than sixteen bytes remain where a pair of length fields is
    /// expected, or a declared length exceeds what remains of the buffer.
    TruncatedBuffer,
    /// The bytes of an entry's path are not valid UTF-8.
    InvalidText,
}

/// One entry of a bundle: a relative path and the file's content.
#[derive(Debug)]
pub struct FileData {
    filename: String,
    contents: Vec<u8>,
}

impl View for FileData {
    type V = (Seq<char>, Seq<u8>);

    closed spec fn view(&self) -> (Seq<char>, Seq<u8>) {
        (self.filename@, self.contents@)
    }
}

/// The bytes that one entry occupies in a serialized bundle: the path's
/// UTF-8 bytes, the content, then the two lengths as big-endian `u64`.
pub open spec fn entry_bytes(path: Seq<char>, content: Seq<u8>) -> Seq<u8> {
    let p = encode_utf8(path);
    p + content + be_bytes(p.len() as u64) + be_bytes(content.len() as u64)
}

/// The serialized form of a sequence of entries: their bytes, in order.
pub open spec fn bundle_bytes(es: Seq<(Seq<char>, Seq<u8>)>) -> Seq<u8>
    decreases es.len(),
{
    if es.len() == 0 {
        Seq::empty()
    } else {
        bundle_bytes(es.drop_last()) + entry_bytes(es.last().0, es.last().1)
    }
}

/// Whether every entry's path and content lengths fit in a length field.
pub open spec fn lengths_fit(es: Seq<(Seq<char>, Seq<u8>)>) -> bool {
    forall|i: int|
        0 <= i < es.len() ==> encode_utf8(#[trigger] es[i].0).len() <= u64::MAX && es[i].1.len()
            <= u64::MAX
}

/// The entries that a buffer decodes to, read from its end backward, or
/// the first error met on the way.
pub open spec fn parse_bundle(b: Seq<u8>) -> Result<Seq<(Seq<char>, Seq<u8>)>, BundleError>
    decreases b.len(),
{
    if b.len() == 0 {
        Ok(Seq::empty())
    } else if b.len() < 16 {
        Err(BundleError::TruncatedBuffer)
    } else {
        let rem = b.len() - 16;
        let plen = be_value(b.subrange(rem, rem + 8)) as int;
        let clen = be_value(b.subrange(rem + 8, b.len() as int)) as int;
        if clen > rem || plen > rem - clen {
            Err(BundleError::TruncatedBuffer)
        } else {
            let pstart = rem - clen - plen;
            let pb = b.subrange(pstart, rem - clen);
            if !valid_utf8(pb) {
                Err(BundleError::InvalidText)
            } else {
                match parse_bundle(b.subrange(0, pstart)) {
                    Ok(es) => Ok(es.push((decode_utf8(pb), b.subrange(rem - clen, rem)))),
                    Err(e) => Err(e),
                }
            }
        }
    }
}

/// `r` with `tail` appended to its entries when it is a success.
pub open spec fn with_tail(
    r: Result<Seq<(Seq<char>, Seq<u8>)>, BundleError>,
    tail: Seq<(Seq<char>, Seq<u8>)>,
) -> Result<Seq<(Seq<char>, Seq<u8>)>, BundleError> {
    match r {
        Ok(es) => Ok(es + tail),
        Err(e) => Err(e),
    }
}

/// Decoding a serialized bundle gives back its entries, in order, duplicate
/// paths and empty contents included.
#[verifier::rlimit(40)]
pub proof fn lemma_bundle_round_trip(es: Seq<(Seq<char>, Seq<u8>)>)
    requires
        lengths_fit(es),
    ensures
        parse_bundle(bundle_bytes(es)) == Ok::<_, BundleError>(es),
    decreases es.len(),
{
    if es.len() == 0 {
        assert(es =~= Seq::<(Seq<char>, Seq<u8>)>::empty());
    } else {
        let init = es.drop_last();
        let (path, content) = es.last();
        assert(lengths_fit(init)) by {
            assert forall|i: int| 0 <= i < init.len() implies encode_utf8(#[trigger] init[i].0).len()
                <= u64::MAX && init[i].1.len() <= u64::MAX by {
                assert(init[i] == es[i]);
            }
        }
        assert(encode_utf8(es[es.len() - 1].0).len() <= u64::MAX);
        lemma_bundle_round_trip(init);
        let p = encode_utf8(path);
        let front = bundle_bytes(init);
        let b = bundle_bytes(es);
        assert(b == front + (p + content + be_bytes(p.len() as u64) + be_bytes(
            content.len() as u64,
        )));
        let rem = b.len() - 16;
        assert(b.subrange(rem, rem + 8) =~= be_bytes(p.len() as u64));
        assert(b.subrange(rem + 8, b.len() as int) =~= be_bytes(content.len() as u64));
        lemma_be_round_trip(p.len() as u64);
        lemma_be_round_trip(content.len() as u64);
        let clen = content.len() as int;
        let plen = p.len() as int;
        let pstart = rem - clen - plen;
        assert(b.subrange(pstart, rem - clen) =~= p);
        assert(b.subrange(rem - clen, rem) =~= content);
        assert(b.subrange(0, pstart) =~= front);
        encode_utf8_valid_utf8(path);
        encode_utf8_decode_utf8(path);
        assert(es.drop_last() == init);
        assert(es.last() == (path, content));
        assert(init.push((path, content)) =~= es);
        assert(b.len() >= 16);
        assert(be_value(b.subrange(rem, rem + 8)) as int == plen);
        assert(be_value(b.subrange(rem + 8, b.len() as int)) as int == clen);
        assert(valid_utf8(b.subrange(pstart, rem - clen)));
        assert(decode_utf8(b.subrange(pstart, rem - clen)) == path);
    }
}

/// Decodes the last entry of `b[..end]`: the entry and where its bytes
/// begin, or the error that decoding `b[..end]` reports.
fn decode_last(b: &[u8], end: usize) -> (r: Result<(FileData, usize), BundleError>)
    requires
        0 < end <= b@.len(),
    ensures
        match r {
            Ok((f, pstart)) => pstart < end && parse_bundle(b@.subrange(0, end as int)) == with_tail(
                parse_bundle(b@.subrange(0, pstart as int)),
                seq![f@],
            ),
            Err(e) => parse_bundle(b@.subrange(0, end as int)) == Err::<
                Seq<(Seq<char>, Seq<u8>)>,
                BundleError,
            >(e),
        },
{
    let ghost s = b@.subrange(0, end as int);
    if end < 16 {
        return Err(BundleError::TruncatedBuffer);
    }
    let rem = end - 16;
    let plen = read_be_u64(b, rem);
    let clen = read_be_u64(b, rem + 8);
    assert(s.subrange(rem as int, rem + 8) =~= b@.subrange(rem as int, rem + 8));
    assert(s.subrange(rem + 8, s.len() as int) =~= b@.subrange(rem + 8, rem + 16));
    if clen > rem as u64 {
        return Err(BundleError::TruncatedBuffer);
    }
    let cstart = rem - clen as usize;
    if plen > cstart as u64 {
        return Err(BundleError::TruncatedBuffer);
    }
    let pstart = cstart - plen as usize;
    let path_bytes = copy_range(b, pstart, cstart);
    let content = copy_range(b, cstart, rem);
    assert(s.subrange(pstart as int, cstart as int) =~= path_bytes@);
    assert(s.subrange(cstart as int, rem as int) =~= content@);
    assert(s.subrange(0, pstart as int) =~= b@.subrange(0, pstart as int));
    match string_from_utf8(path_bytes) {
        None => Err(BundleError::InvalidText),
        Some(path) => {
            let f = FileData::from(path, content);
            proof {
                match parse_bundle(b@.subrange(0, pstart as int)) {
                    Ok(es) => {
                        assert(es.push(f@) =~= es + seq![f@]);
                    },
                    Err(_) => {},
                }
            }
            Ok((f, pstart))
        },
    }
}

/// Where the last component of a `/`-separated path begins: just after the
/// last `/`, or at 0 when there is none.
pub open spec fn name_start(s: Seq<u8>) -> int
    decreases s.len(),
{
    if s.len() == 0 {
        0
    } else if s.last() == 47u8 {
        s.len() as int
    } else {
        name_start(s.drop_last())
    }
}

/// The last component of a `/`-separated path.
pub open spec fn last_name(s: Seq<u8>) -> Seq<u8> {
    s.subrange(name_start(s), s.len() as int)
}

/// The first position at or after `k` where `/*` occurs in `r`, or -1.
pub open spec fn glob_from(r: Seq<u8>, k: int) -> int
    decreases r.len() - k,
{
    if k < 0 || k + 1 >= r.len() {
        -1
    } else if r[k] == 47u8 && r[k + 1] == 42u8 {
        k
    } else {
        glob_from(r, k + 1)
    }
}

/// Whether the rule is a negation (`!path`) that names exactly `path`.
pub open spec fn rule_forces(rule: Seq<u8>, path: Seq<u8>) -> bool {
    rule.len() >= 1 && rule[0] == 33u8 && rule.subrange(1, rule.len() as int) == path
}

/// Whether one rule excludes the entry at `path`, a directory when
/// `is_dir`: an exact path; for a directory, `name/`, matching a last
/// component equal to `name`; for a file, `*.ext` matching a last
/// component that ends with `.ext`, `name*` matching one that starts with
/// `name`, or `dir/*.ext` matching a path that starts with `dir` and ends
/// with `.ext`.
pub open spec fn rule_excludes(rule: Seq<u8>, path: Seq<u8>, is_dir: bool) -> bool {
    let name = last_name(path);
    let n = rule.len() as int;
    let g = glob_from(rule, 0);
    ||| path == rule
    ||| is_dir && n >= 1 && rule[n - 1] == 47u8 && name == rule.subrange(0, n - 1)
    ||| !is_dir && n >= 2 && rule[0] == 42u8 && rule[1] == 46u8 && ends_with(name, rule.subrange(1, n))
    ||| !is_dir && n >= 1 && rule[n - 1] == 42u8 && starts_with(name, rule.subrange(0, n - 1))
    ||| !is_dir && g >= 0 && starts_with(path, rule.subrange(0, g)) && ends_with(path, rule.subrange(g + 2, n))
}

/// Whether an entry is kept by the rule set on its own account: a negation
/// naming it keeps it whatever else holds; otherwise any rule that excludes
/// it drops it.
pub open spec fn entry_included(rules: Seq<Seq<u8>>, path: Seq<u8>, is_dir: bool) -> bool {
    (exists|i: int| 0 <= i < rules.len() && rule_forces(#[trigger] rules[i], path))
        || !(exists|i: int| 0 <= i < rules.len() && rule_excludes(#[trigger] rules[i], path, is_dir))
}

/// Whether every directory on the way to `path` is kept on its own
/// account.
pub open spec fn ancestors_kept(rules: Seq<Seq<u8>>, path: Seq<u8>) -> bool {
    forall|k: int|
        0 <= k < path.len() && #[trigger] path[k] == 47u8 ==> entry_included(
            rules,
            path.subrange(0, k),
            true,
        )
}

/// Whether a file at the relative `path` enters the bundle: a negation
/// naming it keeps it; otherwise each directory on the way to it and the
/// file itself must be kept. A `name/` rule thus excludes every path under
/// a directory `name`.
pub open spec fn path_included(rules: Seq<Seq<u8>>, path: Seq<u8>) -> bool {
    (exists|i: int| 0 <= i < rules.len() && rule_forces(#[trigger] rules[i], path)) || (
    ancestors_kept(rules, path) && entry_included(rules, path, false))
}

/// Whether the rule is a negation naming a path under the directory `dir`.
pub open spec fn rule_forces_below(rule: Seq<u8>, dir: Seq<u8>) -> bool {
    rule.len() >= 1 && rule[0] == 33u8 && starts_with(
        rule.subrange(1, rule.len() as int),
        dir.push(47u8),
    )
}

/// Whether a directory walk enters the directory at the relative `dir`:
/// when it and every directory on the way to it are kept, or when a
/// negation names a path under it.
pub open spec fn dir_entered(rules: Seq<Seq<u8>>, dir: Seq<u8>) -> bool {
    (ancestors_kept(rules, dir) && entry_included(rules, dir, true)) || (exists|i: int|
        0 <= i < rules.len() && rule_forces_below(#[trigger] rules[i], dir))
}

/// The byte views of a list of rule strings.
pub open spec fn rule_bytes(rules: Seq<String>) -> Seq<Seq<u8>> {
    rules.map_values(|r: String| encode_utf8(r@))
}

fn find_name_start(s: &[u8]) -> (r: usize)
    ensures
        r as int == name_start(s@),
        r <= s@.len(),
{
    let mut k: usize = s.len();
    assert(s@.subrange(0, k as int) =~= s@);
    while k > 0
        invariant
            k <= s@.len(),
            name_start(s@) == name_start(s@.subrange(0, k as int)),
        decreases k,
    {
        assert(s@.subrange(0, k as int).drop_last() =~= s@.subrange(0, k - 1));
        if s[k - 1] == 47u8 {
            return k;
        }
        k = k - 1;
    }
    0
}

fn find_glob(r: &[u8]) -> (g: Option<usize>)
    ensures
        match g {
            Some(k) => k as int == glob_from(r@, 0) && k + 1 < r@.len(),
            None => glob_from(r@, 0) == -1,
        },
{
    let mut k: usize = 0;
    while k < r.len() && k < r.len() - 1
        invariant
            k <= r@.len(),
            glob_from(r@, 0) == glob_from(r@, k as int),
        decreases r@.len() - k,
    {
        if r[k] == 47u8 && r[k + 1] == 42u8 {
            return Some(k);
        }
        k = k + 1;
    }
    None
}

fn rule_forces_exec(rule: &[u8], path: &[u8]) -> (r: bool)
    ensures
        r == rule_forces(rule@, path@),
{
    if rule.len() >= 1 && rule[0] == 33u8 {
        bytes_eq(&rule[1..rule.len()], path)
    } else {
        false
    }
}

fn rule_excludes_exec(rule: &[u8], path: &[u8], is_dir: bool) -> (r: bool)
    ensures
        r == rule_excludes(rule@, path@, is_dir),
{
    let ns = find_name_start(path);
    let name = &path[ns..path.len()];
    let n = rule.len();
    if bytes_eq(path, rule) {
        return true;
    }
    if is_dir {
        n >= 1 && rule[n - 1] == 47u8 && bytes_eq(name, &rule[0..n - 1])
    } else {
        if n >= 2 && rule[0] == 42u8 && rule[1] == 46u8 && bytes_ends_with(name, &rule[1..n]) {
            return true;
        }
        if n >= 1 && rule[n - 1] == 42u8 && bytes_starts_with(name, &rule[0..n - 1]) {
            return true;
        }
        match find_glob(rule) {
            Some(g) => bytes_starts_with(path, &rule[0..g]) && bytes_ends_with(path, &rule[g + 2..n]),
            None => false,
        }
    }
}

/// Whether any rule is a negation that names `path` exactly.
fn any_rule_forces(ignore: &Vec<String>, path: &[u8]) -> (r: bool)
    ensures
        r == exists|i: int| 0 <= i < ignore@.len() && rule_forces(#[trigger] rule_bytes(ignore@)[i], path@),
{
    let mut i: usize = 0;
    while i < ignore.len()
        invariant
            i <= ignore@.len(),
            forall|j: int| 0 <= j < i ==> !rule_forces(#[trigger] rule_bytes(ignore@)[j], path@),
        decreases ignore@.len() - i,
    {
        assert(rule_bytes(ignore@)[i as int] == encode_utf8(ignore@[i as int]@));
        if rule_forces_exec(ignore[i].as_str().as_bytes(), path) {
            return true;
        }
        i = i + 1;
    }
    false
}

/// Whether any rule excludes the entry at `path`.
fn any_rule_excludes(ignore: &Vec<String>, path: &[u8], is_dir: bool) -> (r: bool)
    ensures
        r == exists|i: int| 0 <= i < ignore@.len() && rule_excludes(#[trigger] rule_bytes(ignore@)[i], path@, is_dir),
{
    let mut i: usize = 0;
    while i < ignore.len()
        invariant
            i <= ignore@.len(),
            forall|j: int| 0 <= j < i ==> !rule_excludes(#[trigger] rule_bytes(ignore@)[j], path@, is_dir),
        decreases ignore@.len() - i,
    {
        assert(rule_bytes(ignore@)[i as int] == encode_utf8(ignore@[i as int]@));
        if rule_excludes_exec(ignore[i].as_str().as_bytes(), path, is_dir) {
            return true;
        }
        i = i + 1;
    }
    false
}

/// Whether every directory on the way to `p` is kept on its own account.
fn ancestors_kept_exec(ignore: &Vec<String>, p: &[u8]) -> (r: bool)
    ensures
        r == ancestors_kept(rule_bytes(ignore@), p@),
{
    let ghost rules = rule_bytes(ignore@);
    assert(rules.len() == ignore@.len());
    let mut k: usize = 0;
    while k < p.len()
        invariant
            k <= p@.len(),
            rules == rule_bytes(ignore@),
            rules.len() == ignore@.len(),
            forall|j: int|
                0 <= j < k && #[trigger] p@[j] == 47u8 ==> entry_included(
                    rules,
                    p@.subrange(0, j),
                    true,
                ),
        decreases p@.len() - k,
    {
        if p[k] == 47u8 {
            let dir = &p[0..k];
            assert(dir@ == p@.subrange(0, k as int));
            let kept = any_rule_forces(ignore, dir) || !any_rule_excludes(ignore, dir, true);
            assert(kept == entry_included(rules, p@.subrange(0, k as int), true));
            if !kept {
                assert(p@[k as int] == 47u8);
                return false;
            }
        }
        k = k + 1;
    }
    true
}

/// Whether any rule is a negation naming a path under the directory `dir`.
fn any_rule_forces_below(ignore: &Vec<String>, dir: &[u8]) -> (r: bool)
    ensures
        r == exists|i: int|
            0 <= i < ignore@.len() && rule_forces_below(#[trigger] rule_bytes(ignore@)[i], dir@),
{
    let mut prefix: Vec<u8> = Vec::new();
    push_all(&mut prefix, dir);
    prefix.push(47u8);
    let mut i: usize = 0;
    while i < ignore.len()
        invariant
            i <= ignore@.len(),
            prefix@ == dir@.push(47u8),
            forall|j: int| 0 <= j < i ==> !rule_forces_below(#[trigger] rule_bytes(ignore@)[j], dir@),
        decreases ignore@.len() - i,
    {
        let rule = ignore[i].as_str().as_bytes();
        assert(rule_bytes(ignore@)[i as int] == rule@);
        if rule.len() >= 1 && rule[0] == 33u8 && bytes_starts_with(&rule[1..rule.len()], prefix.as_slice()) {
            return true;
        }
        i = i + 1;
    }
    false
}

impl FileData {
    /// An entry with the given path and content.
    pub fn from(filename: String, contents: Vec<u8>) -> (r: Self)
        ensures
            r@ == (filename@, contents@),
    {
        FileData { filename: filename, contents: contents }
    }

    /// The entry's size in memory as the bundle accounts for it: a fixed
    /// overhead of 256 bytes plus the path's and the content's byte lengths.
    pub fn mem_size(&self) -> (r: usize)
        requires
            256 + encode_utf8(self@.0).len() + self@.1.len() <= usize::MAX,
        ensures
            r == 256 + encode_utf8(self@.0).len() + self@.1.len(),
    {
        4 * 64 + self.filename.as_str().len() + self.contents.len()
    }

    /// The entry's path and content, given back to the caller.
    pub fn extract(self) -> (r: (String, Vec<u8>))
        ensures
            (r.0@, r.1@) == self@,
    {
        (self.filename, self.contents)
    }
}

/// An ordered collection of entries; paths are not required to be unique.
#[derive(Debug)]
pub struct FileCollection {
    files: Vec<FileData>,
}

impl View for FileCollection {
    type V = Seq<(Seq<char>, Seq<u8>)>;

    closed spec fn view(&self) -> Seq<(Seq<char>, Seq<u8>)> {
        self.files@.map_values(|f: FileData| f@)
    }
}

impl FileCollection {
    /// An empty collection.
    pub fn new() -> (r: Self)
        ensures
            r@ == Seq::<(Seq<char>, Seq<u8>)>::empty(),
    {
        FileCollection { files: Vec::new() }
    }

    /// Appends one entry at the end.
    pub fn push(&mut self, elem: FileData)
        ensures
            final(self)@ == old(self)@.push(elem@),
    {
        self.files.push(elem);
        assert(self@ =~= old(self)@.push(elem@));
    }

    /// Moves every entry of `other` to the end of this collection, in order,
    /// leaving `other` empty.
    pub fn append(&mut self, other: &mut FileCollection)
        ensures
            final(self)@ == old(self)@ + old(other)@,
            final(other)@ == Seq::<(Seq<char>, Seq<u8>)>::empty(),
    {
        self.files.append(&mut other.files);
        assert(self@ =~= old(self)@ + old(other)@);
        assert(other@ =~= Seq::<(Seq<char>, Seq<u8>)>::empty());
    }

    /// The entries, in order.
    pub fn into_files(self) -> (r: Vec<FileData>)
        ensures
            r@.map_values(|f: FileData| f@) == self@,
    {
        self.files
    }

    /// Whether the rule set keeps the entry at `path` on its own account (a
    /// directory when `is_dir`), without regard to the directories above it.
    pub fn entry_kept(ignore: &Vec<String>, path: &str, is_dir: bool) -> (r: bool)
        ensures
            r == entry_included(rule_bytes(ignore@), encode_utf8(path@), is_dir),
    {
        let p = path.as_bytes();
        if any_rule_forces(ignore, p) {
            return true;
        }
        !any_rule_excludes(ignore, p, is_dir)
    }

    /// Whether the file at the relative `path` enters a bundle under the rule
    /// set: a negation naming it keeps it; otherwise every directory on the
    /// way to it and the file itself must be kept.
    pub fn filter_ignored_files(ignore: &Vec<String>, path: &str) -> (r: bool)
        ensures
            r == path_included(rule_bytes(ignore@), encode_utf8(path@)),
    {
        let p = path.as_bytes();
        if any_rule_forces(ignore, p) {
            return true;
        }
        ancestors_kept_exec(ignore, p) && !any_rule_excludes(ignore, p, false)
    }

    /// Whether a directory walk enters the directory at the relative `dir`:
    /// when it and the directories above it are kept, or when a negation
    /// names a path under it.
    pub fn should_descend(ignore: &Vec<String>, dir: &str) -> (r: bool)
        ensures
            r == dir_entered(rule_bytes(ignore@), encode_utf8(dir@)),
    {
        let p = dir.as_bytes();
        let kept = ancestors_kept_exec(ignore, p) && (any_rule_forces(ignore, p) || !any_rule_excludes(
            ignore,
            p,
            true,
        ));
        kept || any_rule_forces_below(ignore, p)
    }

    /// Serializes the collection: for each entry in order, its path bytes,
    /// its content, then the path length and the content length as
    /// big-endian `u64`.
    pub fn to_bytes(self) -> (r: Vec<u8>)
        ensures
            r@ == bundle_bytes(self@),
            lengths_fit(self@),
    {
        let mut res: Vec<u8> = Vec::new();
        let mut i: usize = 0;
        while i < self.files.len()
            invariant
                i <= self.files@.len(),
                res@ == bundle_bytes(self@.subrange(0, i as int)),
                lengths_fit(self@.subrange(0, i as int)),
            decreases self.files@.len() - i,
        {
            let file = &self.files[i];
            let path = file.filename.as_str().as_bytes();
            push_all(&mut res, path);
            push_all(&mut res, file.contents.as_slice());
            push_be_u64(&mut res, path.len() as u64);
            push_be_u64(&mut res, file.contents.len() as u64);
            let ghost done = self@.subrange(0, i + 1);
            assert(done.drop_last() =~= self@.subrange(0, i as int));
            proof {
                assert(done[i as int] == self@[i as int]);
                assert(self@[i as int] == file@);
                assert forall|j: int| 0 <= j < done.len() implies encode_utf8(#[trigger] done[j].0).len()
                    <= u64::MAX && done[j].1.len() <= u64::MAX by {
                    if j < i {
                        assert(done[j] == self@.subrange(0, i as int)[j]);
                    }
                }
            }
            i = i + 1;
        }
        assert(self@.subrange(0, self@.len() as int) =~= self@);
        res
    }

    /// Decodes a buffer written by [`FileCollection::to_bytes`], consuming it
    /// from the end backward; the entries come back in the order they were written.
    pub fn from_bytes(vec: Vec<u8>) -> (r: Result<Self, BundleError>)
        ensures
            match parse_bundle(vec@) {
                Ok(es) => r is Ok && r->Ok_0@ == es,
                Err(e) => r is Err && r->Err_0 == e,
            },
    {
        let mut end: usize = vec.len();
        let mut rev: Vec<FileData> = Vec::new();
        let ghost mut tail: Seq<(Seq<char>, Seq<u8>)> = Seq::empty();
        assert(vec@.subrange(0, end as int) =~= vec@);
        assert(parse_bundle(vec@) == with_tail(parse_bundle(vec@.subrange(0, end as int)), tail)) by {
            match parse_bundle(vec@) {
                Ok(es) => {
                    assert(es + tail =~= es);
                },
                Err(_) => {},
            }
        }
        while end > 0
            invariant
                end <= vec@.len(),
                parse_bundle(vec@) == with_tail(parse_bundle(vec@.subrange(0, end as int)), tail),
                rev@.len() == tail.len(),
                forall|i: int| 0 <= i < rev@.len() ==> #[trigger] rev@[i]@ == tail[tail.len() - 1 - i],
            decreases end,
        {
            let (entry, pstart) = match decode_last(vec.as_slice(), end) {
                Ok(step) => step,
                Err(e) => {
                    return Err(e);
                },
            };
            let ghost old_tail = tail;
            proof {
                tail = seq![entry@] + tail;
                assert(vec@.subrange(0, end as int).subrange(0, pstart as int) =~= vec@.subrange(0, pstart as int));
                match parse_bundle(vec@.subrange(0, pstart as int)) {
                    Ok(es) => {
                        assert(es + seq![entry@] + old_tail =~= es + tail);
                    },
                    Err(_) => {},
                }
            }
            let ghost rev_before = rev@;
            rev.push(entry);
            end = pstart;
            assert forall|i: int| 0 <= i < rev@.len() implies #[trigger] rev@[i]@ == tail[tail.len() - 1 - i] by {
                if i < rev@.len() - 1 {
                    assert(rev@[i] == rev_before[i]);
                }
            }
        }
        assert(vec@.subrange(0, 0) =~= Seq::<u8>::empty());
        assert(parse_bundle(vec@) == Ok::<_, BundleError>(Seq::empty() + tail));
        assert(Seq::<(Seq<char>, Seq<u8>)>::empty() + tail =~= tail);
        let mut files: Vec<FileData> = Vec::new();
        while rev.len() > 0
            invariant
                files@.len() + rev@.len() == tail.len(),
                forall|i: int| 0 <= i < rev@.len() ==> #[trigger] rev@[i]@ == tail[tail.len() - 1 - i],
                forall|i: int| 0 <= i < files@.len() ==> #[trigger] files@[i]@ == tail[i],
            decreases rev@.len(),
        {
            let ghost k = rev@.len() - 1;
            assert(rev@[k]@ == tail[tail.len() - 1 - k]);
            let entry = rev.pop().unwrap();
            files.push(entry);
        }
        let res = FileCollection { files };
        assert(res@ =~= tail);
        Ok(res)
    }
}

} // verus!
