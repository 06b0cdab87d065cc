//! Where caches are kept.
use sha2::{Digest, Sha256};
use vstd::prelude::*;
use vstd::string::*;
use vstd::utf8::*;

use crate::lists;
use crate::paths;
use crate::sorting;
use crate::text;

verus! {

// ---------------------------------------------------------------------------
// Digests
// ---------------------------------------------------------------------------

/// The SHA-256 digest of bytes.
pub uninterp spec fn sha256(data: Seq<u8>) -> Seq<u8>;

/// `Sha256::digest`: the 32 bytes of the SHA-256 digest of `data`, a function of `data` alone.
#[verifier::external_body]
pub(crate) fn sha256_of(data: &[u8]) -> (r: Vec<u8>)
    ensures
        r@ == sha256(data@),
        r@.len() == 32,
{
    Sha256::digest(data).to_vec()
}

/// A hexadecimal digit.
pub open spec fn hex_digit(n: int) -> char {
    "0123456789abcdef"@[n]
}

/// Bytes in hexadecimal digits.
pub open spec fn hex(bytes: Seq<u8>) -> Seq<char>
    decreases bytes.len(),
{
    if bytes.len() == 0 {
        Seq::empty()
    } else {
        hex(bytes.drop_last()).push(hex_digit(bytes.last() as int / 16)).push(
            hex_digit(bytes.last() as int % 16),
        )
    }
}

/// A short name for a digest: its first eight bytes.
pub open spec fn short_name(digest: Seq<u8>) -> Seq<char> {
    hex(digest.take(8))
}

/// A short name for a digest: its first eight bytes, in hexadecimal digits.
pub fn digest_name(digest: &Vec<u8>) -> (r: String)
    requires
        digest@.len() >= 8,
    ensures
        r@ == short_name(digest@),
{
    let ghost bytes = digest@.take(8);
    let mut out = String::new();
    let mut i: usize = 0;
    proof {
        reveal_strlit("0123456789abcdef");
    }
    while i < 8
        invariant
            i <= 8 <= digest@.len(),
            bytes == digest@.take(8),
            "0123456789abcdef"@.len() == 16,
            out@ == hex(bytes.take(i as int)),
        decreases 8 - i,
    {
        let b: usize = digest[i] as usize;
        proof {
            assert(bytes.take(i + 1).drop_last() =~= bytes.take(i as int));
            assert(bytes.take(i + 1).last() == digest@[i as int]);
        }
        out.push("0123456789abcdef".get_char(b / 16));
        out.push("0123456789abcdef".get_char(b % 16));
        i += 1;
    }
    assert(bytes.take(8) =~= bytes);
    out
}

// ---------------------------------------------------------------------------
// The workspace's cache
// ---------------------------------------------------------------------------

/// The directory below which caches are kept: the one that is set, else the one in the user's
/// home.
pub open spec fn base_dir(configured: Option<Seq<char>>, home: Option<Seq<char>>) -> Seq<char> {
    match configured {
        Some(dir) => dir,
        None => paths::joined(
            match home {
                Some(h) => h,
                None => "/tmp"@,
            },
            ".cache"@,
        ),
    }
}

/// The directory below which caches are kept: the one that is set, else the one in the user's
/// home.
pub fn xdg_cache_base(configured: Option<&str>, home: Option<&str>) -> (r: String)
    ensures
        r@ == base_dir(configured.deep_view(), home.deep_view()),
{
    match configured {
        Some(dir) => dir.to_owned(),
        None => paths::join_path(
            match home {
                Some(h) => h,
                None => "/tmp",
            },
            ".cache",
        ),
    }
}

/// This program's own directory for caches.
pub open spec fn own_dir(base: Seq<char>) -> Seq<char> {
    paths::joined(base, "kmp-lsp"@)
}

/// The file that tells how far indexing is.
pub fn status_cache_path(base: &str) -> (r: String)
    ensures
        r@ == paths::joined(own_dir(base@), "status.json"@),
{
    let dir = paths::join_path(base, "kmp-lsp");
    paths::join_path(dir.as_str(), "status.json")
}

/// The file that holds the index of a workspace, under a name made from the workspace's root.
pub open spec fn index_path(base: Seq<char>, root: Seq<char>) -> Seq<char> {
    paths::joined(
        paths::joined(own_dir(base), short_name(sha256(encode_utf8(root)))),
        "index.bin"@,
    )
}

/// The file that holds the index of a workspace, under a name made from the workspace's root.
pub fn workspace_cache_path(base: &str, root: &str) -> (r: String)
    ensures
        r@ == index_path(base@, root@),
{
    let digest = sha256_of(root.as_bytes());
    let name = digest_name(&digest);
    let own = paths::join_path(base, "kmp-lsp");
    let dir = paths::join_path(own.as_str(), name.as_str());
    paths::join_path(dir.as_str(), "index.bin")
}

// ---------------------------------------------------------------------------
// The libraries' cache
// ---------------------------------------------------------------------------

/// Whether `a` may stand before `b` in a sorted list.
pub open spec fn may_precede(a: Seq<char>, b: Seq<char>) -> bool {
    a == b || sorting::text_before(a, b)
}

/// Whether a list is sorted.
pub open spec fn sorted(s: Seq<Seq<char>>) -> bool {
    forall|i: int, j: int| 0 <= i < j < s.len() ==> may_precede(#[trigger] s[i], #[trigger] s[j])
}

/// Whether `s` holds the strings of `t`, each as often, in sorted order.
pub open spec fn sorts(s: Seq<Seq<char>>, t: Seq<Seq<char>>) -> bool {
    sorted(s) && s.to_multiset() == t.to_multiset()
}

/// The bytes of strings, each followed by a zero.
pub open spec fn zero_ended(s: Seq<Seq<char>>) -> Seq<u8>
    decreases s.len(),
{
    if s.len() == 0 {
        Seq::empty()
    } else {
        zero_ended(s.drop_last()) + encode_utf8(s.last()) + seq![0u8]
    }
}

/// The directory that holds the files of libraries, under a name made from the source paths,
/// in whatever order they are given.
pub open spec fn chunks_dir(base: Seq<char>, sorted_paths: Seq<Seq<char>>) -> Seq<char> {
    paths::joined(
        own_dir(base),
        "library-"@ + short_name(sha256(zero_ended(sorted_paths))) + "-chunks"@,
    )
}

proof fn lemma_sorted_insert(s: Seq<Seq<char>>, i: int, x: Seq<char>)
    requires
        sorted(s),
        0 <= i <= s.len(),
        forall|k: int| 0 <= k < i ==> may_precede(#[trigger] s[k], x),
        i < s.len() ==> sorting::text_before(x, s[i]),
    ensures
        sorted(s.insert(i, x)),
{
    let t = s.insert(i, x);
    assert forall|a: int, b: int| 0 <= a < b < t.len() implies may_precede(
        #[trigger] t[a],
        #[trigger] t[b],
    ) by {
        if b < i {
            assert(t[a] == s[a] && t[b] == s[b]);
        } else if b == i {
            assert(t[a] == s[a]);
        } else if a < i {
            assert(t[a] == s[a] && t[b] == s[b - 1]);
        } else if a == i {
            assert(t[b] == s[b - 1]);
            if b - 1 > i {
                assert(may_precede(s[i], s[b - 1]));
                if s[i] != s[b - 1] {
                    sorting::lemma_before_transitive(x, s[i], s[b - 1]);
                }
            }
        } else {
            assert(t[a] == s[a - 1] && t[b] == s[b - 1]);
        }
    }
}

/// The strings in sorted order, each as often as it is given.
pub fn sorted_copy(list: &Vec<String>) -> (r: Vec<String>)
    ensures
        sorts(r.deep_view(), list.deep_view()),
{
    let ghost all = list.deep_view();
    let mut out: Vec<String> = Vec::new();
    let mut i: usize = 0;
    proof {
        assert(out.deep_view() =~= Seq::empty());
        assert(all.take(0) =~= Seq::empty());
    }
    while i < list.len()
        invariant
            i <= list@.len(),
            all == list.deep_view(),
            sorts(out.deep_view(), all.take(i as int)),
        decreases list@.len() - i,
    {
        let item = list[i].as_str();
        let ghost before = out.deep_view();
        let mut at: usize = out.len();
        while at > 0 && sorting::comes_before(item, out[at - 1].as_str())
            invariant
                at <= out@.len(),
                before == out.deep_view(),
                sorted(before),
                at < out@.len() ==> sorting::text_before(item@, before[at as int]),
            ensures
                at > 0 ==> !sorting::text_before(item@, before[at - 1]),
            decreases at,
        {
            assert(before[at - 1] == out@[at - 1]@);
            at = at - 1;
        }
        proof {
            if at > 0 {
                sorting::lemma_before_total(item@, before[at - 1]);
                assert forall|k: int| 0 <= k < at implies may_precede(
                    #[trigger] before[k],
                    item@,
                ) by {
                    if k < at - 1 {
                        assert(may_precede(before[k], before[at - 1]));
                        if before[k] != before[at - 1] && before[at - 1] != item@ {
                            sorting::lemma_before_transitive(before[k], before[at - 1], item@);
                        }
                    }
                }
            }
            lemma_sorted_insert(before, at as int, item@);
        }
        out.insert(at, item.to_owned());
        proof {
            assert(out.deep_view() =~= before.insert(at as int, item@));
            lists::lemma_insert_counts(before, at as int, item@);
            assert(all[i as int] == item@);
            assert(all.take(i + 1) =~= all.take(i as int).push(item@));
            all.take(i as int).to_multiset_ensures();
        }
        i += 1;
    }
    assert(all.take(all.len() as int) =~= all);
    out
}

/// A list that sorts another is fixed by the strings that it holds.
pub proof fn lemma_sorts_unique(a: Seq<Seq<char>>, b: Seq<Seq<char>>)
    requires
        sorted(a),
        sorted(b),
        a.to_multiset() == b.to_multiset(),
    ensures
        a == b,
    decreases a.len(),
{
    a.to_multiset_ensures();
    b.to_multiset_ensures();
    assert(a.len() == b.len());
    if a.len() == 0 {
        assert(a =~= b);
    } else {
        let x = a.last();
        let y = b.last();
        if x != y {
            assert(a.contains(x));
            assert(b.to_multiset().count(x) > 0);
            assert(b.contains(x));
            let i = choose|i: int| 0 <= i < b.len() && b[i] == x;
            assert(may_precede(b[i], b[b.len() - 1]));
            assert(b.contains(y));
            assert(a.to_multiset().count(y) > 0);
            assert(a.contains(y));
            let j = choose|j: int| 0 <= j < a.len() && a[j] == y;
            assert(may_precede(a[j], a[a.len() - 1]));
            sorting::lemma_before_transitive(x, y, x);
            sorting::lemma_before_irreflexive(x);
        }
        let p = a.drop_last();
        let q = b.drop_last();
        assert(a =~= p.push(x));
        assert(b =~= q.push(x));
        p.to_multiset_ensures();
        q.to_multiset_ensures();
        assert(p.to_multiset() =~= a.to_multiset().remove(x));
        assert(q.to_multiset() =~= b.to_multiset().remove(x));
        lemma_sorts_unique(p, q);
    }
}

/// The directory that holds the files of libraries does not depend on the order in which the
/// source paths are given.
pub proof fn law_order_of_source_paths(
    base: Seq<char>,
    a: Seq<Seq<char>>,
    b: Seq<Seq<char>>,
    s: Seq<Seq<char>>,
    t: Seq<Seq<char>>,
)
    requires
        a.to_multiset() == b.to_multiset(),
        sorts(s, a),
        sorts(t, b),
    ensures
        chunks_dir(base, s) == chunks_dir(base, t),
{
    lemma_sorts_unique(s, t);
}

/// The directory that holds the files of libraries.
pub fn library_chunks_dir(base: &str, source_paths: &Vec<String>) -> (r: String)
    ensures
        exists|s: Seq<Seq<char>>| #[trigger]
            sorts(s, source_paths.deep_view()) && r@ == chunks_dir(base@, s),
{
    let ordered = sorted_copy(source_paths);
    let ghost all = ordered.deep_view();
    let mut bytes: Vec<u8> = Vec::new();
    let mut i: usize = 0;
    assert(bytes@ =~= zero_ended(all.take(0)));
    while i < ordered.len()
        invariant
            i <= ordered@.len(),
            all == ordered.deep_view(),
            bytes@ == zero_ended(all.take(i as int)),
        decreases ordered@.len() - i,
    {
        proof {
            assert(all.take(i + 1).drop_last() =~= all.take(i as int));
            assert(all.take(i + 1).last() == ordered@[i as int]@);
        }
        bytes.extend_from_slice(ordered[i].as_str().as_bytes());
        bytes.push(0);
        assert(bytes@ =~= zero_ended(all.take(i as int)) + encode_utf8(ordered@[i as int]@) + seq![
            0u8,
        ]);
        i += 1;
    }
    assert(all.take(all.len() as int) =~= all);
    let digest = sha256_of(bytes.as_slice());
    let mut name = text::concat("library-", digest_name(&digest).as_str());
    name.append("-chunks");
    let own = paths::join_path(base, "kmp-lsp");
    paths::join_path(own.as_str(), name.as_str())
}

/// The file that tells how many files a library cache has.
pub fn library_manifest_path(dir: &str) -> (r: String)
    ensures
        r@ == paths::joined(dir@, "manifest.bin"@),
{
    paths::join_path(dir, "manifest.bin")
}

/// A number in decimal digits.
pub open spec fn decimal_digits(n: nat) -> Seq<char>
    decreases n,
{
    if n < 10 {
        seq!["0123456789"@[n as int]]
    } else {
        decimal_digits(n / 10).push("0123456789"@[(n % 10) as int])
    }
}

/// Zeros.
pub open spec fn zeros(n: nat) -> Seq<char> {
    Seq::new(n, |i: int| '0')
}

/// A text with zeros before it, up to four characters.
pub open spec fn padded(s: Seq<char>) -> Seq<char> {
    if s.len() < 4 {
        zeros((4 - s.len()) as nat) + s
    } else {
        s
    }
}

/// The name of a file of a library cache.
pub open spec fn chunk_name(n: nat) -> Seq<char> {
    "chunk-"@ + padded(decimal_digits(n)) + ".bin"@
}

/// A number in decimal digits.
pub fn digits_of(n: u64) -> (r: String)
    ensures
        r@ == decimal_digits(n as nat),
    decreases n,
{
    proof {
        reveal_strlit("0123456789");
    }
    if n < 10 {
        let mut out = String::new();
        out.push("0123456789".get_char(n as usize));
        assert(out@ =~= decimal_digits(n as nat));
        out
    } else {
        let mut out = digits_of(n / 10);
        out.push("0123456789".get_char((n % 10) as usize));
        out
    }
}

/// The path of a file of a library cache.
pub fn library_chunk_path(dir: &str, chunk_number: u32) -> (r: String)
    ensures
        r@ == paths::joined(dir@, chunk_name(chunk_number as nat)),
{
    let digits = digits_of(chunk_number as u64);
    let n: usize = digits.as_str().unicode_len();
    let mut name = "chunk-".to_owned();
    let mut i: usize = n;
    while i < 4
        invariant
            n == digits@.len(),
            n <= i,
            n < 4 ==> i <= 4,
            n >= 4 ==> i == n,
            name@ == "chunk-"@ + zeros((i - n) as nat),
        decreases 4 - i,
    {
        let ghost before = name@;
        name.push('0');
        proof {
            assert(zeros((i + 1 - n) as nat) =~= zeros((i - n) as nat).push('0'));
            assert(name@ =~= "chunk-"@ + zeros((i + 1 - n) as nat));
        }
        i += 1;
    }
    name.append(digits.as_str());
    name.append(".bin");
    proof {
        assert(name@ =~= chunk_name(chunk_number as nat));
    }
    paths::join_path(dir, name.as_str())
}

/// The number that decimal digits write.
pub open spec fn number_of(s: Seq<char>) -> int
    decreases s.len(),
{
    if s.len() == 0 {
        0
    } else {
        10 * number_of(s.drop_last()) + (s.last() as u32 - '0' as u32)
    }
}

proof fn lemma_number_of_digits(n: nat)
    ensures
        number_of(decimal_digits(n)) == n,
    decreases n,
{
    reveal_strlit("0123456789");
    let d = decimal_digits(n);
    if n < 10 {
        assert(d.drop_last() =~= Seq::empty());
        assert(number_of(d.drop_last()) == 0);
        assert(d.last() == "0123456789"@[n as int]);
    } else {
        lemma_number_of_digits(n / 10);
        assert(d.drop_last() =~= decimal_digits(n / 10));
        assert(d.last() == "0123456789"@[(n % 10) as int]);
    }
}

proof fn lemma_leading_zeros(n: nat, s: Seq<char>)
    ensures
        number_of(zeros(n) + s) == number_of(s),
    decreases s.len(), n,
{
    let t = zeros(n) + s;
    if s.len() > 0 {
        lemma_leading_zeros(n, s.drop_last());
        assert(t.drop_last() =~= zeros(n) + s.drop_last());
    } else if n > 0 {
        assert(t.drop_last() =~= zeros((n - 1) as nat) + s);
        assert(t.last() == '0');
        lemma_leading_zeros((n - 1) as nat, s);
    } else {
        assert(t =~= s);
    }
}

/// No two files of a library cache have the same name.
pub proof fn law_chunk_names_differ(a: nat, b: nat)
    requires
        chunk_name(a) == chunk_name(b),
    ensures
        a == b,
{
    let x = padded(decimal_digits(a));
    let y = padded(decimal_digits(b));
    let head = "chunk-"@.len() as int;
    let tail = ".bin"@.len() as int;
    assert(chunk_name(a).subrange(head, chunk_name(a).len() - tail) =~= x);
    assert(chunk_name(b).subrange(head, chunk_name(b).len() - tail) =~= y);
    lemma_number_of_digits(a);
    lemma_number_of_digits(b);
    lemma_leading_zeros((4 - decimal_digits(a).len()) as nat, decimal_digits(a));
    lemma_leading_zeros((4 - decimal_digits(b).len()) as nat, decimal_digits(b));
    assert(number_of(x) == a);
    assert(number_of(y) == b);
}

} // verus!
