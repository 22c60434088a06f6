//! What is known of the repository that a report is about, and the rules by
//! which the files of a remote repository are chosen, named and cached.

use vstd::prelude::*;
use vstd::string::*;
use vstd::utf8::encode_utf8;

verus! {

/// Where the analysed sources came from.
#[derive(Debug)]
pub struct RepoMetadata {
    pub url: String,
    pub commit: String,
}

impl RepoMetadata {
    /// The metadata of sources that were read from a local directory.
    pub fn local() -> (meta: Self)
        ensures
            meta.url@ == "<LOCAL>"@,
            meta.commit@ == "<LOCAL>"@,
    {
        RepoMetadata { url: String::from_str("<LOCAL>"), commit: String::from_str("<LOCAL>") }
    }

    /// The metadata of the sources of the repository `repo_name` on GitHub
    /// at the revision `commit`.
    pub fn github(repo_name: &str, commit: String) -> (meta: Self)
        ensures
            meta.url@ == "git@github.com:"@ + repo_name@ + ".git"@,
            meta.commit@ == commit@,
    {
        let mut url = String::from_str("git@github.com:");
        url.append(repo_name);
        url.append(".git");
        RepoMetadata { url, commit }
    }
}

/// The kind of an entry of a repository's tree.
#[derive(Debug, Copy, Clone, Hash, Eq, PartialEq, Structural)]
#[non_exhaustive]
pub enum TreeItemType {
    Tree,
    Blob,
    Commit,
}

/// An entry of a repository's tree.
#[derive(Debug)]
pub struct TreeItem {
    pub path: String,
    pub mode: String,
    pub type_: TreeItemType,
    pub sha: String,
    pub url: Option<String>,
    pub size: Option<u64>,
}

/// The tree of a repository at one revision.
#[derive(Debug)]
pub struct Tree {
    pub sha: String,
    pub url: String,
    pub tree: Vec<TreeItem>,
    /// Whether the listing was cut off.
    pub truncated: bool,
}

/// Whether `text` ends with `end`.
pub open spec fn ends_with(text: Seq<u8>, end: Seq<u8>) -> bool {
    end.len() <= text.len() && text.skip(text.len() - end.len()) == end
}

/// Whether `text` starts with `start`.
pub open spec fn starts_with(text: Seq<u8>, start: Seq<u8>) -> bool {
    start.len() <= text.len() && text.take(start.len() as int) == start
}

/// Whether the bytes of `text` from `from` on start with the bytes of
/// `part`.
fn matches_at(text: &[u8], from: usize, part: &[u8]) -> (yes: bool)
    requires
        from + part@.len() <= text@.len(),
    ensures
        yes == (text@.subrange(from as int, from + part@.len()) == part@),
{
    let mut i: usize = 0;
    let total = text.len();
    while i < part.len()
        invariant
            i <= part@.len(),
            from + part@.len() <= text@.len(),
            total == text@.len(),
            forall|k: int| 0 <= k < i ==> text@[from + k] == part@[k],
        decreases part@.len() - i,
    {
        if text[from + i] != part[i] {
            proof {
                assert(text@.subrange(from as int, from + part@.len())[i as int] != part@[i as int]);
            }
            return false;
        }
        i += 1;
    }
    proof {
        assert(text@.subrange(from as int, from + part@.len()) =~= part@);
    }
    true
}

/// Whether `text` ends with `end`, byte by byte.
pub fn has_suffix(text: &str, end: &str) -> (yes: bool)
    ensures
        yes == ends_with(encode_utf8(text@), encode_utf8(end@)),
{
    let bytes = text.as_bytes();
    let part = end.as_bytes();
    if part.len() > bytes.len() {
        return false;
    }
    let from = bytes.len() - part.len();
    proof {
        assert(bytes@.skip(from as int) =~= bytes@.subrange(from as int, from + part@.len()));
    }
    matches_at(bytes, from, part)
}

/// Whether `text` starts with `start`, byte by byte.
pub fn has_prefix(text: &str, start: &str) -> (yes: bool)
    ensures
        yes == starts_with(encode_utf8(text@), encode_utf8(start@)),
{
    let bytes = text.as_bytes();
    let part = start.as_bytes();
    if part.len() > bytes.len() {
        return false;
    }
    proof {
        assert(bytes@.take(part@.len() as int) =~= bytes@.subrange(0, 0 + part@.len() as int));
    }
    matches_at(bytes, 0, part)
}

/// Whether `item` is a source file to analyse: a file whose name ends in
/// `.rs` and that does not lie under `vendor/`.
pub open spec fn wanted(item: TreeItem) -> bool {
    &&& item.type_ == TreeItemType::Blob
    &&& ends_with(encode_utf8(item.path@), encode_utf8(".rs"@))
    &&& !starts_with(encode_utf8(item.path@), encode_utf8("vendor/"@))
}

/// Those of `items` that are wanted, in their order.
pub open spec fn wanted_among(items: Seq<TreeItem>) -> Seq<TreeItem>
    decreases items.len(),
{
    if items.len() == 0 {
        Seq::empty()
    } else if wanted(items.last()) {
        wanted_among(items.drop_last()).push(items.last())
    } else {
        wanted_among(items.drop_last())
    }
}

/// Whether `item` is a source file to analyse.
pub fn is_wanted(item: &TreeItem) -> (yes: bool)
    ensures
        yes == wanted(*item),
{
    item.type_ == TreeItemType::Blob && has_suffix(item.path.as_str(), ".rs") && !has_prefix(
        item.path.as_str(),
        "vendor/",
    )
}

/// The source files to analyse among the entries `tree` of a repository's
/// tree, in their order.
pub fn wanted_files(tree: Vec<TreeItem>) -> (files: Vec<TreeItem>)
    ensures
        files@ == wanted_among(tree@),
{
    let ghost all = tree@;
    let mut files: Vec<TreeItem> = Vec::new();
    proof {
        assert(all.take(0) =~= Seq::<TreeItem>::empty());
    }
    for item in iter: tree
        invariant
            iter.seq() == all,
            files@ == wanted_among(all.take(iter.index() as int)),
    {
        proof {
            let done = iter.index() as int;
            assert(item == all[done]);
            assert(all.take(done + 1).drop_last() =~= all.take(done));
        }
        if is_wanted(&item) {
            files.push(item);
        }
    }
    proof {
        assert(all.take(all.len() as int) =~= all);
    }
    files
}

/// The sizes of `items` summed up, an entry without a size taken as empty.
pub open spec fn size_of(items: Seq<TreeItem>) -> nat
    decreases items.len(),
{
    if items.len() == 0 {
        0
    } else {
        size_of(items.drop_last()) + match items.last().size {
            Some(size) => size as nat,
            None => 0,
        }
    }
}

/// Whether each of `items` has a size.
pub open spec fn all_sized(items: Seq<TreeItem>) -> bool {
    forall|i: int| 0 <= i < items.len() ==> (#[trigger] items[i]).size is Some
}

proof fn lemma_size_bound(items: Seq<TreeItem>)
    ensures
        size_of(items) <= items.len() * u64::MAX,
    decreases items.len(),
{
    if items.len() > 0 {
        lemma_size_bound(items.drop_last());
        assert((items.len() - 1) * u64::MAX + u64::MAX == items.len() * u64::MAX)
            by (nonlinear_arith);
    }
}

/// The number of bytes to fetch for `items`; `None` where an entry has no
/// size.
pub fn total_size(items: &Vec<TreeItem>) -> (total: Option<u128>)
    ensures
        total is Some <==> all_sized(items@),
        total is Some ==> total->0 == size_of(items@),
{
    let mut total: u128 = 0;
    let mut i: usize = 0;
    while i < items.len()
        invariant
            i <= items@.len(),
            all_sized(items@.take(i as int)),
            total == size_of(items@.take(i as int)),
        decreases items@.len() - i,
    {
        proof {
            assert(items@.take(i + 1).drop_last() =~= items@.take(i as int));
            lemma_size_bound(items@.take(i as int));
            assert(i * u64::MAX + u64::MAX <= u64::MAX * u64::MAX + u64::MAX) by (nonlinear_arith)
                requires
                    i <= u64::MAX,
            ;
            assert(u64::MAX * u64::MAX + u64::MAX <= u128::MAX) by (nonlinear_arith);
        }
        match items[i].size {
            Some(size) => {
                total = total + size as u128;
            },
            None => {
                proof {
                    assert(items@[i as int].size is None);
                }
                return None;
            },
        }
        proof {
            assert forall|k: int| 0 <= k < i + 1 implies (#[trigger] items@.take(i + 1)[k]).size is Some by {
                if k < i {
                    assert(items@.take(i as int)[k] == items@.take(i + 1)[k]);
                }
            }
        }
        i += 1;
    }
    proof {
        assert(items@.take(items@.len() as int) =~= items@);
    }
    Some(total)
}

/// A cache of fetched content, kept under one directory.
pub struct Cache {
    directory: String,
}

impl View for Cache {
    type V = Seq<char>;

    closed spec fn view(&self) -> Seq<char> {
        self.directory@
    }
}

impl Cache {
    /// The cache kept under `directory`.
    pub fn new(directory: String) -> (cache: Self)
        ensures
            cache@ == directory@,
    {
        Cache { directory }
    }

    /// The directory of this cache.
    pub fn directory(&self) -> (directory: &str)
        ensures
            directory@ == self@,
    {
        self.directory.as_str()
    }

    /// The key under which the tree of the revision `sha` is kept.
    pub fn tree_key(sha: &str) -> (key: String)
        ensures
            key@ == "tree/"@ + sha@,
    {
        let mut key = String::from_str("tree/");
        key.append(sha);
        key
    }

    /// The key under which the file `path` of the repository `repo_name`
    /// at the revision `commit` is kept.
    pub fn file_key(repo_name: &str, commit: &str, path: &str) -> (key: String)
        ensures
            key@ == "file/"@ + repo_name@ + "/"@ + commit@ + "/"@ + path@,
    {
        let mut key = String::from_str("file/");
        key.append(repo_name);
        key.append("/");
        key.append(commit);
        key.append("/");
        key.append(path);
        key
    }
}

/// The address of the file `path` of the repository `repo_name` at the
/// revision `commit`.
pub fn raw_url(repo_name: &str, commit: &str, path: &str) -> (url: String)
    ensures
        url@ == "https://raw.githubusercontent.com/"@ + repo_name@ + "/"@ + commit@ + "/"@ + path@,
{
    let mut url = String::from_str("https://raw.githubusercontent.com/");
    url.append(repo_name);
    url.append("/");
    url.append(commit);
    url.append("/");
    url.append(path);
    url
}

/// The request for the latest commit of the repository `repo_name`, one
/// commit to the page.
pub fn commits_route(repo_name: &str) -> (route: String)
    ensures
        route@ == "/repos/"@ + repo_name@ + "/commits?per_page=1"@,
{
    let mut route = String::from_str("/repos/");
    route.append(repo_name);
    route.append("/commits?per_page=1");
    route
}

/// The request for the whole tree of the repository `repo_name` at the
/// revision `sha`.
pub fn tree_route(repo_name: &str, sha: &str) -> (route: String)
    ensures
        route@ == "/repos/"@ + repo_name@ + "/git/trees/"@ + sha@ + "?recursive=true"@,
{
    let mut route = String::from_str("/repos/");
    route.append(repo_name);
    route.append("/git/trees/");
    route.append(sha);
    route.append("?recursive=true");
    route
}

/// How many requests a response cost beyond the one that was counted when
/// it was sent, where it says that `used` were used; `None` where there
/// are none.
pub fn uncounted_requests(used: u32) -> (more: Option<u32>)
    requires
        used >= 1,
    ensures
        more == if used > 1 {
            Some((used - 1) as u32)
        } else {
            None
        },
{
    if used - 1 > 0 {
        Some(used - 1)
    } else {
        None
    }
}


/// What `url::Url::parse` followed by `Url::query_pairs` gives for the
/// address `address`: the pairs of its query, each a key and a value, in
/// their order; `None` where the address is no absolute URL.
pub uninterp spec fn url_query_pairs(address: Seq<char>) -> Option<Seq<(Seq<char>, Seq<char>)>>;

/// What a run of pairs of strings stands for.
pub open spec fn pairs_of(pairs: Seq<(String, String)>) -> Seq<(Seq<char>, Seq<char>)> {
    Seq::new(pairs.len(), |i: int| (pairs[i].0@, pairs[i].1@))
}

/// The pairs of the query of the address `address`.
///
/// Calls `url::Url::parse` and, on the URL that it gives, `query_pairs`.
/// Nothing is claimed of the pairs but that they depend on the address
/// alone; an address that does not parse gives `None`.
#[verifier::external_body]
fn query_pairs(address: &str) -> (pairs: Option<Vec<(String, String)>>)
    ensures
        match pairs {
            Some(found) => url_query_pairs(address@) == Some(pairs_of(found@)),
            None => url_query_pairs(address@) is None,
        },
{
    match url::Url::parse(address) {
        Ok(url) => Some(url.query_pairs().map(|(k, v)| (k.into_owned(), v.into_owned())).collect()),
        Err(_) => None,
    }
}

/// The value of the first of `pairs` whose key is `key`.
pub open spec fn value_of(pairs: Seq<(Seq<char>, Seq<char>)>, key: Seq<char>) -> Option<Seq<char>>
    decreases pairs.len(),
{
    if pairs.len() == 0 {
        None
    } else if pairs[0].0 == key {
        Some(pairs[0].1)
    } else {
        value_of(pairs.skip(1), key)
    }
}

/// The value of the first of `pairs` whose key is `key`.
pub fn first_value<'a>(pairs: &'a Vec<(String, String)>, key: &str) -> (value: Option<&'a String>)
    ensures
        match value {
            Some(text) => value_of(pairs_of(pairs@), key@) == Some(text@),
            None => value_of(pairs_of(pairs@), key@) is None,
        },
{
    let wanted = String::from_str(key);
    let ghost all = pairs_of(pairs@);
    let mut i: usize = 0;
    proof {
        assert(all.skip(0) =~= all);
    }
    while i < pairs.len()
        invariant
            i <= pairs@.len(),
            all == pairs_of(pairs@),
            wanted@ == key@,
            value_of(all, key@) == value_of(all.skip(i as int), key@),
        decreases pairs@.len() - i,
    {
        proof {
            assert(all.skip(i as int)[0] == all[i as int]);
            assert(all.skip(i as int).skip(1) =~= all.skip(i + 1));
        }
        if pairs[i].0 == wanted {
            return Some(&pairs[i].1);
        }
        i += 1;
    }
    None
}

/// The number that the decimal digits `digits` spell.
pub open spec fn decimal(digits: Seq<u8>) -> nat
    decreases digits.len(),
{
    if digits.len() == 0 {
        0
    } else {
        decimal(digits.drop_last()) * 10 + (digits.last() - 48) as nat
    }
}

/// Whether each of `bytes` is a decimal digit.
pub open spec fn all_digits(bytes: Seq<u8>) -> bool {
    forall|i: int| 0 <= i < bytes.len() ==> 48 <= #[trigger] bytes[i] <= 57
}

/// The count that `text` spells: decimal digits, at least one, with or
/// without a `+` before them, that spell a number of at most 32 bits.
pub open spec fn count_of(text: Seq<u8>) -> Option<u32> {
    let digits = if text.len() > 0 && text[0] == 43 {
        text.skip(1)
    } else {
        text
    };
    if digits.len() > 0 && all_digits(digits) && decimal(digits) <= u32::MAX {
        Some(decimal(digits) as u32)
    } else {
        None
    }
}

proof fn lemma_decimal_grows(digits: Seq<u8>, upto: int)
    requires
        all_digits(digits),
        0 <= upto <= digits.len(),
    ensures
        decimal(digits.take(upto)) <= decimal(digits),
    decreases digits.len() - upto,
{
    if upto < digits.len() {
        lemma_decimal_grows(digits, upto + 1);
        assert(digits.take(upto + 1).drop_last() =~= digits.take(upto));
    } else {
        assert(digits.take(upto) =~= digits);
    }
}

/// The count that `text` spells, as `str::parse::<u32>` reads it.
pub fn parse_count(text: &str) -> (count: Option<u32>)
    ensures
        count == count_of(encode_utf8(text@)),
{
    let bytes = text.as_bytes();
    let n = bytes.len();
    let start: usize = if n > 0 && bytes[0] == 43 {
        1
    } else {
        0
    };
    if start == n {
        return None;
    }
    let ghost digits = bytes@.skip(start as int);
    let mut value: u32 = 0;
    let mut i: usize = start;
    proof {
        assert(digits.take(0) =~= Seq::<u8>::empty());
        if start == 0 {
            assert(digits =~= bytes@);
        }
    }
    while i < n
        invariant
            start <= i <= n,
            start < n,
            n == bytes@.len(),
            bytes@ == encode_utf8(text@),
            start == if bytes@.len() > 0 && bytes@[0] == 43 {
                1int
            } else {
                0int
            },
            digits == bytes@.skip(start as int),
            start == 0 ==> digits == bytes@,
            all_digits(digits.take(i - start)),
            value == decimal(digits.take(i - start)),
        decreases n - i,
    {
        let byte = bytes[i];
        proof {
            assert(digits[i - start] == byte);
            assert(digits.take(i - start + 1).drop_last() =~= digits.take(i - start));
        }
        if byte < 48 || byte > 57 {
            proof {
                assert(!(48 <= digits[i - start] <= 57));
                assert(!all_digits(digits));
            }
            return None;
        }
        let digit = (byte - 48) as u32;
        let next = match value.checked_mul(10) {
            Some(tens) => tens.checked_add(digit),
            None => None,
        };
        proof {
            assert forall|k: int| 0 <= k < i - start + 1 implies 48 <= #[trigger] digits.take(
                i - start + 1,
            )[k] <= 57 by {
                if k < i - start {
                    assert(digits.take(i - start)[k] == digits.take(i - start + 1)[k]);
                }
            }
        }
        match next {
            Some(more) => {
                value = more;
            },
            None => {
                proof {
                    assert(decimal(digits.take(i - start + 1)) == value * 10 + digit);
                    if all_digits(digits) {
                        lemma_decimal_grows(digits, i - start + 1);
                    }
                }
                return None;
            },
        }
        i += 1;
    }
    proof {
        assert(digits.take(n - start) =~= digits);
    }
    Some(value)
}

/// The number of the last page, as the pairs `pairs` of the query of its
/// address tell it: the count that the value of `page` spells.
pub open spec fn page_of(pairs: Seq<(Seq<char>, Seq<char>)>) -> Option<u32> {
    match value_of(pairs, "page"@) {
        Some(text) => count_of(encode_utf8(text)),
        None => None,
    }
}

/// The number of the last page, as the pairs `pairs` of the query of its
/// address tell it.
pub fn page_number(pairs: &Vec<(String, String)>) -> (page: Option<u32>)
    ensures
        page == page_of(pairs_of(pairs@)),
{
    match first_value(pairs, "page") {
        Some(text) => parse_count(text.as_str()),
        None => None,
    }
}

/// The number of commits of a repository, from the address of the last
/// page of its commits, listed one to the page: the number of that page.
/// `None` where the address is no URL, or names no page.
pub fn commit_count(last_page: &str) -> (count: Option<u32>)
    ensures
        count == match url_query_pairs(last_page@) {
            Some(pairs) => page_of(pairs),
            None => None,
        },
{
    match query_pairs(last_page) {
        Some(pairs) => page_number(&pairs),
        None => None,
    }
}

} // verus!
