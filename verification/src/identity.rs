//! The identifiers gx works with: actions, versions, commits, repositories, and
//! the kind of ref a version resolved through.

use vstd::prelude::*;
use crate::text::{chars_of, string_of, push_char};
use vstd::string::StringExecFns;

verus! {

/// Index of the first `c` in `s` at or after `from`, or -1.
pub open spec fn index_of_from(s: Seq<char>, c: char, from: int) -> int
    decreases s.len() - from,
{
    if from < 0 || from >= s.len() {
        -1
    } else if s[from] == c {
        from
    } else {
        index_of_from(s, c, from + 1)
    }
}

pub proof fn lemma_index_of_from(s: Seq<char>, c: char, from: int)
    requires
        0 <= from,
    ensures
        index_of_from(s, c, from) == -1 || (from <= index_of_from(s, c, from) < s.len()
            && s[index_of_from(s, c, from)] == c),
        index_of_from(s, c, from) == -1 ==> forall|j: int| from <= j < s.len() ==> s[j] != c,
        index_of_from(s, c, from) != -1 ==> forall|j: int|
            from <= j < index_of_from(s, c, from) ==> s[j] != c,
    decreases s.len() - from,
{
    if from < s.len() && s[from] != c {
        lemma_index_of_from(s, c, from + 1);
    }
}

/// Index of the first `c` in `v` at or after `from`.
pub fn find_char_from(v: &Vec<char>, c: char, from: usize) -> (r: Option<usize>)
    ensures
        r matches Some(i) ==> i as int == index_of_from(v@, c, from as int) && from <= i < v.len(),
        r is None ==> index_of_from(v@, c, from as int) == -1,
{
    let mut i = from;
    while i < v.len()
        invariant
            from <= i,
            index_of_from(v@, c, from as int) == index_of_from(v@, c, i as int),
        decreases v.len() - i,
    {
        if v[i] == c {
            return Some(i);
        }
        i = i + 1;
    }
    None
}

/// Index of the last `c` in `s`, or -1.
pub open spec fn last_index_of(s: Seq<char>, c: char) -> int
    decreases s.len(),
{
    if s.len() == 0 {
        -1
    } else if s.last() == c {
        s.len() - 1
    } else {
        last_index_of(s.drop_last(), c)
    }
}

pub proof fn lemma_last_index_of(s: Seq<char>, c: char)
    ensures
        -1 <= last_index_of(s, c) < s.len(),
        last_index_of(s, c) >= 0 ==> s[last_index_of(s, c)] == c,
        forall|j: int| last_index_of(s, c) < j < s.len() ==> s[j] != c,
    decreases s.len(),
{
    if s.len() > 0 && s.last() != c {
        lemma_last_index_of(s.drop_last(), c);
        assert forall|j: int| last_index_of(s, c) < j < s.len() implies s[j] != c by {
            if j < s.len() - 1 {
                assert(s[j] == s.drop_last()[j]);
            }
        }
    }
}

/// Index of the last `c` in `v`.
pub fn find_last_char(v: &Vec<char>, c: char) -> (r: Option<usize>)
    ensures
        r matches Some(i) ==> i as int == last_index_of(v@, c),
        r is None ==> last_index_of(v@, c) == -1,
{
    let mut i = v.len();
    assert(v@.take(i as int) == v@);
    while i > 0
        invariant
            i <= v.len(),
            last_index_of(v@, c) == last_index_of(v@.take(i as int), c),
        decreases i,
    {
        assert(v@.take(i as int).drop_last() == v@.take(i - 1));
        if v[i - 1] == c {
            return Some(i - 1);
        }
        i = i - 1;
    }
    None
}

/// The characters `v[from..to]`.
pub fn sub_chars(v: &Vec<char>, from: usize, to: usize) -> (r: Vec<char>)
    requires
        from <= to <= v.len(),
    ensures
        r@ == v@.subrange(from as int, to as int),
{
    let mut r: Vec<char> = Vec::new();
    let mut i = from;
    while i < to
        invariant
            from <= i <= to <= v.len(),
            r@ == v@.subrange(from as int, i as int),
        decreases to - i,
    {
        r.push(v[i]);
        i = i + 1;
    }
    r
}

/// The `owner/repo` part of a reference: everything before the second `/`.
pub open spec fn spec_base_repo(s: Seq<char>) -> Seq<char> {
    let first = index_of_from(s, '/', 0);
    if first == -1 {
        s
    } else {
        let second = index_of_from(s, '/', first + 1);
        if second == -1 {
            s
        } else {
            s.take(second)
        }
    }
}

/// A GitHub action reference, `owner/repo` or `owner/repo/path`.
#[derive(Debug, Clone, PartialEq, Eq, Hash, PartialOrd, Ord)]
pub struct ActionId(pub String);

/// A version or ref as written after `@` (e.g. `v4`, `v4.2.1`, `main`).
#[derive(Debug, Clone, PartialEq, Eq, Hash, PartialOrd, Ord)]
pub struct Version(pub String);

/// A git commit SHA.
#[derive(Debug, Clone, PartialEq, Eq, Hash, PartialOrd, Ord)]
pub struct CommitSha(pub String);

/// An `owner/repo` repository slug.
#[derive(Debug, Clone, PartialEq, Eq, Hash, PartialOrd, Ord)]
pub struct Repository(pub String);

/// An RFC 3339 timestamp, or empty when unknown.
#[derive(Debug, Clone, PartialEq, Eq, Hash, PartialOrd, Ord, Default)]
pub struct CommitDate(pub String);

impl View for ActionId {
    type V = Seq<char>;

    open spec fn view(&self) -> Seq<char> {
        self.0@
    }
}

impl View for Version {
    type V = Seq<char>;

    open spec fn view(&self) -> Seq<char> {
        self.0@
    }
}

impl DeepView for Version {
    type V = Seq<char>;

    open spec fn deep_view(&self) -> Seq<char> {
        self.0@
    }
}

impl View for CommitSha {
    type V = Seq<char>;

    open spec fn view(&self) -> Seq<char> {
        self.0@
    }
}

impl DeepView for CommitSha {
    type V = Seq<char>;

    open spec fn deep_view(&self) -> Seq<char> {
        self.0@
    }
}

impl View for Repository {
    type V = Seq<char>;

    open spec fn view(&self) -> Seq<char> {
        self.0@
    }
}

impl View for CommitDate {
    type V = Seq<char>;

    open spec fn view(&self) -> Seq<char> {
        self.0@
    }
}

/// A copy of a string.
pub fn copy_string(s: &String) -> (r: String)
    ensures
        r@ == s@,
{
    String::from_str(s.as_str())
}

impl ActionId {
    pub fn new(s: &str) -> (r: Self)
        ensures
            r@ == s@,
    {
        ActionId(String::from_str(s))
    }

    pub fn as_str(&self) -> (r: &str)
        ensures
            r@ == self@,
    {
        self.0.as_str()
    }

    pub fn copy(&self) -> (r: Self)
        ensures
            r@ == self@,
    {
        ActionId(copy_string(&self.0))
    }

    /// The repository part of this reference (first two path segments).
    pub fn base_repo(&self) -> (r: Repository)
        ensures
            r@ == spec_base_repo(self@),
    {
        Repository(base_repo_of(self.as_str()))
    }
}

/// The `owner/repo` part of `s`: everything before the second `/`.
pub fn base_repo_of(s: &str) -> (r: String)
    ensures
        r@ == spec_base_repo(s@),
{
    let v = chars_of(s);
    match find_char_from(&v, '/', 0) {
        None => string_of(&v),
        Some(first) => match find_char_from(&v, '/', first + 1) {
            None => string_of(&v),
            Some(second) => {
                proof {
                    lemma_index_of_from(v@, '/', first + 1);
                }
                let t = sub_chars(&v, 0, second);
                assert(t@ == v@.take(second as int));
                string_of(&t)
            },
        },
    }
}

impl Version {
    pub fn new(s: &str) -> (r: Self)
        ensures
            r@ == s@,
    {
        Version(String::from_str(s))
    }

    pub fn as_str(&self) -> (r: &str)
        ensures
            r@ == self@,
    {
        self.0.as_str()
    }

    pub fn copy(&self) -> (r: Self)
        ensures
            r@ == self@,
    {
        Version(copy_string(&self.0))
    }
}

/// Whether `c` is an ASCII hexadecimal digit.
pub open spec fn is_hex(c: char) -> bool {
    ('0' <= c <= '9') || ('a' <= c <= 'f') || ('A' <= c <= 'F')
}

/// A full commit SHA: exactly 40 hexadecimal digits.
pub open spec fn is_full_sha(s: Seq<char>) -> bool {
    s.len() == 40 && forall|i: int| 0 <= i < s.len() ==> is_hex(#[trigger] s[i])
}

impl CommitSha {
    pub fn new(s: &str) -> (r: Self)
        ensures
            r@ == s@,
    {
        CommitSha(String::from_str(s))
    }

    pub fn as_str(&self) -> (r: &str)
        ensures
            r@ == self@,
    {
        self.0.as_str()
    }

    /// Whether `s` is a full 40-hex-digit commit SHA.
    pub fn is_valid(s: &str) -> (r: bool)
        ensures
            r == is_full_sha(s@),
    {
        let v = chars_of(s);
        if v.len() != 40 {
            return false;
        }
        let mut i: usize = 0;
        while i < v.len()
            invariant
                i <= v.len(),
                v.len() == 40,
                v@ == s@,
                forall|j: int| 0 <= j < i ==> is_hex(#[trigger] v@[j]),
            decreases v.len() - i,
        {
            let c = v[i];
            if !(('0' <= c && c <= '9') || ('a' <= c && c <= 'f') || ('A' <= c && c <= 'F')) {
                assert(!is_hex(v@[i as int]));
                return false;
            }
            i = i + 1;
        }
        true
    }
}

impl Repository {
    pub fn new(s: &str) -> (r: Self)
        ensures
            r@ == s@,
    {
        Repository(String::from_str(s))
    }

    pub fn as_str(&self) -> (r: &str)
        ensures
            r@ == self@,
    {
        self.0.as_str()
    }
}

impl CommitDate {
    pub fn new(s: &str) -> (r: Self)
        ensures
            r@ == s@,
    {
        CommitDate(String::from_str(s))
    }

    pub fn as_str(&self) -> (r: &str)
        ensures
            r@ == self@,
    {
        self.0.as_str()
    }
}

/// How a version was resolved to a commit.
#[derive(Debug, Clone, Copy, PartialEq, Eq, Hash)]
pub enum RefType {
    Release,
    Tag,
    Branch,
    Commit,
}

impl RefType {
    /// The lower-case name written to lock files.
    pub open spec fn spec_name(self) -> Seq<char> {
        match self {
            RefType::Release => "release"@,
            RefType::Tag => "tag"@,
            RefType::Branch => "branch"@,
            RefType::Commit => "commit"@,
        }
    }

    /// The lower-case name written to lock files.
    pub fn as_str(self) -> (r: &'static str)
        ensures
            r@ == self.spec_name(),
    {
        match self {
            RefType::Release => "release",
            RefType::Tag => "tag",
            RefType::Branch => "branch",
            RefType::Commit => "commit",
        }
    }

    /// The ref type a lock-file name denotes; `None` for any other text.
    pub open spec fn spec_parse(s: Seq<char>) -> Option<RefType> {
        if s == "release"@ {
            Some(RefType::Release)
        } else if s == "tag"@ {
            Some(RefType::Tag)
        } else if s == "branch"@ {
            Some(RefType::Branch)
        } else if s == "commit"@ {
            Some(RefType::Commit)
        } else {
            None
        }
    }

    /// Parse a lock-file ref type name.
    pub fn parse(s: &str) -> (r: Option<RefType>)
        ensures
            r == RefType::spec_parse(s@),
    {
        if crate::text::str_is(s, "release") {
            Some(RefType::Release)
        } else if crate::text::str_is(s, "tag") {
            Some(RefType::Tag)
        } else if crate::text::str_is(s, "branch") {
            Some(RefType::Branch)
        } else if crate::text::str_is(s, "commit") {
            Some(RefType::Commit)
        } else {
            None
        }
    }
}

/// The name written for an optional ref type: its name, or `unknown`.
pub open spec fn ref_type_name(r: Option<RefType>) -> Seq<char> {
    match r {
        Some(t) => t.spec_name(),
        None => "unknown"@,
    }
}

/// The name written for an optional ref type: its name, or `unknown`.
pub fn ref_type_to_str(r: Option<RefType>) -> (s: &'static str)
    ensures
        s@ == ref_type_name(r),
{
    match r {
        Some(t) => t.as_str(),
        None => "unknown",
    }
}

/// An action pinned at a version, keyed as `owner/repo@version`.
#[derive(Debug, Clone, PartialEq, Eq, Hash)]
pub struct LockKey {
    pub id: ActionId,
    pub version: Version,
}

/// The text form of a key: `id@version`.
pub open spec fn key_text(id: Seq<char>, version: Seq<char>) -> Seq<char> {
    id + seq!['@'] + version
}

/// The key a text form denotes: split at the last `@`; none without one.
pub open spec fn spec_parse_key(s: Seq<char>) -> Option<(Seq<char>, Seq<char>)> {
    let at = last_index_of(s, '@');
    if at == -1 {
        None
    } else {
        Some((s.take(at), s.skip(at + 1)))
    }
}

impl LockKey {
    pub fn new(id: ActionId, version: Version) -> (r: Self)
        ensures
            r.id == id,
            r.version == version,
    {
        LockKey { id, version }
    }

    /// A key equal to this one.
    pub fn copy(&self) -> (r: Self)
        ensures
            r.id@ == self.id@,
            r.version@ == self.version@,
    {
        LockKey { id: self.id.copy(), version: self.version.copy() }
    }

    /// `id@version`.
    pub fn to_key_string(&self) -> (r: String)
        ensures
            r@ == key_text(self.id@, self.version@),
    {
        let mut s = String::from_str(self.id.as_str());
        push_char(&mut s, '@');
        s.append(self.version.as_str());
        s
    }

    /// Parse `id@version`, splitting at the last `@`.
    pub fn parse(s: &str) -> (r: Option<LockKey>)
        ensures
            r is Some <==> spec_parse_key(s@) is Some,
            r matches Some(k) ==> (k.id@, k.version@) == spec_parse_key(s@).unwrap(),
    {
        let v = chars_of(s);
        match find_last_char(&v, '@') {
            None => None,
            Some(at) => {
                proof {
                    lemma_last_index_of(v@, '@');
                }
                let id = sub_chars(&v, 0, at);
                let ver = sub_chars(&v, at + 1, v.len());
                assert(id@ == v@.take(at as int));
                assert(ver@ == v@.skip(at + 1));
                Some(LockKey { id: ActionId(string_of(&id)), version: Version(string_of(&ver)) })
            },
        }
    }
}

/// Parsing the text form of a key gives back the key, when its version holds no `@`.
pub proof fn law_key_text_roundtrip(id: Seq<char>, version: Seq<char>)
    requires
        forall|i: int| 0 <= i < version.len() ==> version[i] != '@',
    ensures
        spec_parse_key(key_text(id, version)) == Some((id, version)),
{
    let s = key_text(id, version);
    lemma_last_index_of(s, '@');
    let at = last_index_of(s, '@');
    assert(s[id.len() as int] == '@');
    if at > id.len() {
        assert(s[at] == version[at - id.len() - 1]);
    }
    assert(at == id.len());
    assert(s.take(at) =~= id);
    assert(s.skip(at + 1) =~= version);
}

} // verus!
