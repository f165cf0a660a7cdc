//! The disk cache: a bounded directory of downloaded wallpaper files.
//! Cache state is always derived from a fresh directory listing, never from
//! a persisted index. Before a download is written, files recognized as
//! images are evicted oldest-first until the incoming bytes fit under the
//! configured budget; when nothing evictable remains the download fails
//! with a cache-full error.

use vstd::prelude::*;

use base64::Engine;

use crate::HostError;
use crate::hashing::{hash_url, url_id_of};
use crate::keys::{is_prefix_of, str_has_prefix};

verus! {

/// One entry of a cache directory listing.
#[derive(Debug)]
pub struct CacheFile {
    /// File name within the cache directory.
    pub name: String,
    /// File size in bytes.
    pub len: u64,
    /// Modification time, UTC microseconds; smaller is older.
    pub age: i64,
}

/// Whether `mime_guess` recognizes a file name as an image; a function of
/// the name alone.
pub uninterp spec fn image_guess(name: Seq<char>) -> bool;

/// Relies on `mime_guess::from_path`: whether any type guessed from the
/// file name's extension is an image type.
#[verifier::external_body]
pub fn is_recognized_image(name: &str) -> (r: bool)
    ensures
        r == image_guess(name@),
{
    mime_guess::from_path(std::path::Path::new(name)).iter().any(|g| g.type_() == mime_guess::mime::IMAGE)
}

/// The subtype a content-type header parses to, if it parses; a function
/// of the header characters alone.
pub uninterp spec fn subtype_of(ct: Seq<char>) -> Option<Seq<char>>;

/// Relies on `mime_guess::Mime::from_str` and `Mime::subtype`: the subtype
/// of a parsed content-type (`png` of `image/png`), or `None` where the
/// header does not parse.
#[verifier::external_body]
pub fn content_type_subtype(ct: &str) -> (r: Option<String>)
    ensures
        match r {
            Some(s) => subtype_of(ct@) == Some(s@),
            None => subtype_of(ct@) is None,
        },
{
    match <mime_guess::Mime as std::str::FromStr>::from_str(ct) {
        Ok(m) => Some(m.subtype().as_str().to_string()),
        Err(_) => None,
    }
}

/// What the base64 engine returns for given bytes; a function of the bytes
/// alone.
pub uninterp spec fn base64_of(bytes: Seq<u8>) -> Seq<char>;

/// Relies on `base64::engine::general_purpose::STANDARD.encode`: padded
/// base64, four output characters for every three input bytes begun. The
/// length bound keeps the encoded length representable.
#[verifier::external_body]
fn base64_encode(b: &[u8]) -> (r: String)
    requires
        b@.len() <= 0x4000_0000,
    ensures
        r@ == base64_of(b@),
        r@.len() == 4 * ((b@.len() + 2) / 3),
{
    base64::engine::general_purpose::STANDARD.encode(b)
}

/// The bytes of a cached wallpaper, base64-encoded for the presentation
/// shell.
pub fn get_wallpaper(data: &Vec<u8>) -> (r: String)
    requires
        data@.len() <= 0x4000_0000,
    ensures
        r@ == base64_of(data@),
{
    base64_encode(data.as_slice())
}

/// The cache file name a download of `url` with this content type is
/// stored under: the stable url id, a dot, and the content-type's subtype.
pub open spec fn cache_filename(url: Seq<char>, subtype: Seq<char>) -> Seq<char> {
    url_id_of(url) + seq!['.'] + subtype
}

/// Derives the file name for a download, or fails where no extension can
/// be determined from the content-type header; a failure to determine an
/// extension is an error, never a silent default.
pub fn make_filename(url: &str, content_type: &str) -> (r: Result<String, HostError>)
    ensures
        match r {
            Ok(name) => subtype_of(content_type@) is Some
                && name@ == cache_filename(url@, subtype_of(content_type@)->0),
            Err(e) => e == HostError::Network && subtype_of(content_type@) is None,
        },
{
    let subtype = match content_type_subtype(content_type) {
        Some(s) => s,
        None => {
            return Err(HostError::Network);
        },
    };
    let mut name = hash_url(url);
    name.append(".");
    proof {
        reveal_strlit(".");
        assert(name@ =~= url_id_of(url@) + seq!['.']);
    }
    name.append(subtype.as_str());
    proof {
        assert(name@ =~= cache_filename(url@, subtype_of(content_type@)->0));
    }
    Ok(name)
}

/// The first listed file whose name begins with the candidate's id: the
/// cached copy to reuse instead of downloading again.
pub fn find_cached(files: &Vec<CacheFile>, id: &str) -> (r: Option<usize>)
    ensures
        match r {
            Some(i) => {
                &&& 0 <= i < files@.len()
                &&& is_prefix_of(id@, files@[i as int].name@)
                &&& forall|j: int|
                    0 <= j < i ==> !is_prefix_of(id@, (#[trigger] files@[j]).name@)
            },
            None => forall|j: int|
                0 <= j < files@.len() ==> !is_prefix_of(id@, (#[trigger] files@[j]).name@),
        },
{
    let n = files.len();
    let mut i: usize = 0;
    while i < n
        invariant
            0 <= i <= n,
            n == files@.len(),
            forall|j: int| 0 <= j < i ==> !is_prefix_of(id@, (#[trigger] files@[j]).name@),
        decreases n - i,
    {
        if str_has_prefix(files[i].name.as_str(), id) {
            return Some(i);
        }
        i = i + 1;
    }
    None
}

/// File `a` is evicted before file `b`: it is older, ties going to the
/// earlier listing position. A strict total order on listing indices.
pub open spec fn older(files: Seq<CacheFile>, a: int, b: int) -> bool {
    files[a].age < files[b].age || (files[a].age == files[b].age && a < b)
}

/// The bytes of the first `upto` listed files, skipping those whose index
/// the eviction plan `gone` names.
pub open spec fn sum_kept(files: Seq<CacheFile>, gone: Seq<int>, upto: int) -> int
    decreases upto,
{
    if upto <= 0 {
        0
    } else {
        sum_kept(files, gone, upto - 1) + if gone.contains(upto - 1) {
            0
        } else {
            files[upto - 1].len as int
        }
    }
}

/// The bytes left in the cache once the plan's files are deleted.
pub open spec fn remaining_bytes(files: Seq<CacheFile>, gone: Seq<int>) -> int {
    sum_kept(files, gone, files.len() as int)
}

/// All bytes currently in the cache directory.
pub open spec fn total_cache_bytes(files: Seq<CacheFile>) -> int {
    remaining_bytes(files, Seq::empty())
}

/// The bytes of the first `upto` files recognized as images.
pub open spec fn sum_images(files: Seq<CacheFile>, upto: int) -> int
    decreases upto,
{
    if upto <= 0 {
        0
    } else {
        sum_images(files, upto - 1) + if image_guess(files[upto - 1].name@) {
            files[upto - 1].len as int
        } else {
            0
        }
    }
}

/// All bytes of recognized-image files in the cache.
pub open spec fn image_cache_bytes(files: Seq<CacheFile>) -> int {
    sum_images(files, files.len() as int)
}

/// An index the plan has not deleted yet and that holds a recognized
/// image: still evictable.
pub open spec fn evictable(files: Seq<CacheFile>, gone: Seq<int>, j: int) -> bool {
    &&& 0 <= j < files.len()
    &&& image_guess(files[j].name@)
    &&& !gone.contains(j)
}

/// A cache directory's state, derived from one fresh scan.
pub struct CacheDir {
    files: Vec<CacheFile>,
}

impl View for CacheDir {
    type V = Seq<CacheFile>;

    closed spec fn view(&self) -> Seq<CacheFile> {
        self.files@
    }
}

/// An eviction plan's indices as mathematical integers.
pub open spec fn gone_ints(plan: Seq<usize>) -> Seq<int> {
    plan.map_values(|x: usize| x as int)
}

/// A plan names only recognized-image files, oldest first, and never a
/// file older than one it leaves behind.
pub open spec fn plan_wf(files: Seq<CacheFile>, gone: Seq<int>) -> bool {
    &&& forall|k: int|
        0 <= k < gone.len()
            ==> 0 <= #[trigger] gone[k] < files.len() && image_guess(files[gone[k]].name@)
    &&& forall|k1: int, k2: int|
        0 <= k1 < k2 < gone.len() ==> older(files, #[trigger] gone[k1], #[trigger] gone[k2])
    &&& forall|k: int, j: int|
        0 <= k < gone.len() && #[trigger] evictable(files, gone, j)
            ==> older(files, #[trigger] gone[k], j)
}

impl CacheDir {
    /// A listing taken from a fresh directory scan.
    pub fn new(files: Vec<CacheFile>) -> (r: CacheDir)
        ensures
            r@ == files@,
    {
        CacheDir { files }
    }

    /// The listed files.
    pub fn files(&self) -> (r: &Vec<CacheFile>)
        ensures
            r@ == self@,
    {
        &self.files
    }

    /// The bytes the directory would hold once the plan's files are
    /// deleted.
    pub fn bytes_outside(&self, plan: &Vec<usize>) -> (r: u128)
        ensures
            r == remaining_bytes(self@, gone_ints(plan@)),
            r <= self@.len() * 0xffff_ffff_ffff_ffff,
    {
        let n = self.files.len();
        let mut acc: u128 = 0;
        let mut i: usize = 0;
        while i < n
            invariant
                0 <= i <= n,
                n == self@.len(),
                acc == sum_kept(self@, gone_ints(plan@), i as int),
                acc <= i * 0xffff_ffff_ffff_ffff,
            decreases n - i,
        {
            if !contains_index(plan, i) {
                acc = acc + self.files[i].len as u128;
            }
            i = i + 1;
        }
        acc
    }

    /// Plans a download of `incoming` bytes under `budget`: the files to
    /// delete, oldest recognized image first, until the download fits; or
    /// the cache-full error when everything evictable is gone and the
    /// download still does not fit.
    pub fn plan_eviction(&self, budget: u64, incoming: u64) -> (r: Result<
        Vec<usize>,
        HostError,
    >)
        ensures
            match r {
                Ok(plan) => {
                    &&& plan_wf(self@, gone_ints(plan@))
                    &&& remaining_bytes(self@, gone_ints(plan@)) + incoming < budget
                    &&& plan@.len() > 0
                        ==> remaining_bytes(self@, gone_ints(plan@).drop_last()) + incoming
                            >= budget
                },
                Err(e) => {
                    &&& e == HostError::CacheFull
                    &&& total_cache_bytes(self@) - image_cache_bytes(self@) + incoming >= budget
                },
            },
    {
        let n = self.files.len();
        let mut plan: Vec<usize> = Vec::new();
        proof {
            assert(gone_ints(plan@) =~= Seq::<int>::empty());
        }
        loop
            invariant
                n == self@.len(),
                plan_wf(self@, gone_ints(plan@)),
                plan@.len() <= n,
                plan@.len() > 0
                    ==> remaining_bytes(self@, gone_ints(plan@).drop_last()) + incoming >= budget,
            decreases n - plan@.len(),
        {
            let cur = self.bytes_outside(&plan);
            proof {
                assert(usize::MAX <= 0xffff_ffff_ffff_ffffu64);
                assert(cur + incoming <= u128::MAX);
            }
            let incoming_wide: u128 = incoming as u128;
            let budget_wide: u128 = budget as u128;
            if cur + incoming_wide < budget_wide {
                return Ok(plan);
            }
            match self.oldest_image(&plan) {
                None => {
                    proof {
                        lemma_all_images_gone(self@, gone_ints(plan@), self@.len() as int);
                    }
                    return Err(HostError::CacheFull);
                },
                Some(w) => {
                    let ghost gone = gone_ints(plan@);
                    let ghost gone2 = gone.push(w as int);
                    proof {
                        assert(gone_ints(plan@.push(w)) =~= gone2);
                        assert forall|k1: int, k2: int|
                            0 <= k1 < k2 < gone2.len() implies older(
                            self@,
                            #[trigger] gone2[k1],
                            #[trigger] gone2[k2],
                        ) by {
                            if k2 == gone2.len() - 1 {
                                assert(evictable(self@, gone, w as int));
                            }
                        }
                        assert forall|k: int, j: int|
                            0 <= k < gone2.len() && #[trigger] evictable(self@, gone2, j)
                                implies older(self@, #[trigger] gone2[k], j) by {
                            assert(!gone2.contains(j));
                            assert(gone2[gone2.len() - 1] == w as int);
                            assert(j != w as int);
                            assert(!gone.contains(j)) by {
                                if gone.contains(j) {
                                    let x = choose|x: int|
                                        0 <= x < gone.len() && gone[x] == j;
                                    assert(gone2[x] == j);
                                }
                            }
                            assert(evictable(self@, gone_ints(plan@), j));
                            if k == gone2.len() - 1 {
                                assert(older(self@, w as int, j));
                            }
                        }
                        lemma_distinct_indices(gone2, self@.len() as int);
                        assert(gone2.drop_last() =~= gone);
                    }
                    plan.push(w);
                },
            }
        }
    }

    /// The first-oldest still-evictable recognized image, if any file like
    /// that remains.
    fn oldest_image(&self, plan: &Vec<usize>) -> (r: Option<usize>)
        ensures
            match r {
                Some(w) => {
                    &&& evictable(self@, gone_ints(plan@), w as int)
                    &&& forall|j: int|
                        #[trigger] evictable(self@, gone_ints(plan@), j) && j != w as int
                            ==> older(self@, w as int, j)
                },
                None => forall|j: int| !(#[trigger] evictable(self@, gone_ints(plan@), j)),
            },
    {
        let n = self.files.len();
        let mut best: Option<usize> = None;
        let mut i: usize = 0;
        while i < n
            invariant
                0 <= i <= n,
                n == self@.len(),
                match best {
                    None => forall|j: int|
                        0 <= j < i ==> !(#[trigger] evictable(self@, gone_ints(plan@), j)),
                    Some(b) => {
                        &&& 0 <= b < i
                        &&& evictable(self@, gone_ints(plan@), b as int)
                        &&& forall|j: int|
                            0 <= j < i && #[trigger] evictable(self@, gone_ints(plan@), j)
                                && j != b as int ==> older(self@, b as int, j)
                    },
                },
            decreases n - i,
        {
            if !contains_index(plan, i) && is_recognized_image(self.files[i].name.as_str()) {
                match best {
                    None => {
                        best = Some(i);
                    },
                    Some(b) => {
                        if self.files[i].age < self.files[b].age {
                            best = Some(i);
                        }
                    },
                }
            }
            i = i + 1;
        }
        best
    }
}

/// Does the plan already name this index?
fn contains_index(plan: &Vec<usize>, i: usize) -> (r: bool)
    ensures
        r == gone_ints(plan@).contains(i as int),
{
    let n = plan.len();
    let mut k: usize = 0;
    while k < n
        invariant
            0 <= k <= n,
            n == plan@.len(),
            forall|x: int| 0 <= x < k ==> (#[trigger] plan@[x]) != i,
        decreases n - k,
    {
        if plan[k] == i {
            assert(gone_ints(plan@)[k as int] == i as int);
            return true;
        }
        k = k + 1;
    }
    proof {
        if gone_ints(plan@).contains(i as int) {
            let x = choose|x: int|
                0 <= x < gone_ints(plan@).len() && gone_ints(plan@)[x] == i as int;
            assert(plan@[x] == i);
        }
    }
    false
}

/// A sequence of distinct indices below `n` has at most `n` entries.
pub proof fn lemma_distinct_indices(gone: Seq<int>, n: int)
    requires
        n >= 0,
        forall|k: int| 0 <= k < gone.len() ==> 0 <= #[trigger] gone[k] < n,
        forall|k1: int, k2: int|
            0 <= k1 < k2 < gone.len() ==> #[trigger] gone[k1] != #[trigger] gone[k2],
    ensures
        gone.len() <= n,
{
    let positions = vstd::set_lib::set_int_range(0, gone.len() as int);
    vstd::set_lib::lemma_int_range(0, gone.len() as int);
    let f = |k: int| gone[k];
    assert(vstd::relations::injective_on(f, positions));
    vstd::set_lib::lemma_map_size(positions, positions.map(f), f);
    assert(positions.map(f).subset_of(vstd::set_lib::set_int_range(0, n))) by {
        assert forall|v: int| positions.map(f).contains(v) implies 0 <= v < n by {
            let k = choose|k: int| positions.contains(k) && f(k) == v;
            assert(0 <= gone[k] < n);
        }
    }
    vstd::set_lib::lemma_int_range(0, n);
    vstd::set_lib::lemma_len_subset(positions.map(f), vstd::set_lib::set_int_range(0, n));
}

/// Once a plan covers every recognized image, what remains is exactly the
/// bytes of the files no guess recognizes.
pub proof fn lemma_all_images_gone(files: Seq<CacheFile>, gone: Seq<int>, upto: int)
    requires
        0 <= upto <= files.len(),
        forall|k: int|
            0 <= k < gone.len()
                ==> 0 <= #[trigger] gone[k] < files.len() && image_guess(files[gone[k]].name@),
        forall|j: int| !(#[trigger] evictable(files, gone, j)),
    ensures
        sum_kept(files, gone, upto) == sum_kept(files, Seq::empty(), upto) - sum_images(
            files,
            upto,
        ),
    decreases upto,
{
    if upto > 0 {
        lemma_all_images_gone(files, gone, upto - 1);
        let i = upto - 1;
        if image_guess(files[i].name@) {
            assert(!evictable(files, gone, i));
            assert(gone.contains(i));
        } else {
            assert(!gone.contains(i)) by {
                if gone.contains(i) {
                    let k = choose|k: int| 0 <= k < gone.len() && gone[k] == i;
                    assert(image_guess(files[gone[k]].name@));
                }
            }
        }
    }
}

/// Recognized-image bytes never exceed the directory's total bytes.
pub proof fn lemma_image_bytes_le_total(files: Seq<CacheFile>, upto: int)
    requires
        0 <= upto <= files.len(),
    ensures
        0 <= sum_images(files, upto) <= sum_kept(files, Seq::empty(), upto),
    decreases upto,
{
    if upto > 0 {
        lemma_image_bytes_le_total(files, upto - 1);
    }
}

/// Deleting exactly the planned files leaves the planned remainder: the
/// surviving listing's total bytes are the plan's remaining bytes.
pub proof fn lemma_survivors_bytes(files: Seq<CacheFile>, gone: Seq<int>, upto: int)
    requires
        0 <= upto <= files.len(),
    ensures
        total_cache_bytes(survivors(files, gone, upto)) == sum_kept(files, gone, upto),
    decreases upto,
{
    if upto > 0 {
        lemma_survivors_bytes(files, gone, upto - 1);
        let prev = survivors(files, gone, upto - 1);
        if !gone.contains(upto - 1) {
            lemma_total_push(prev, files[upto - 1]);
        }
    }
}

/// The listing left over once the plan's files are deleted.
pub open spec fn survivors(files: Seq<CacheFile>, gone: Seq<int>, upto: int) -> Seq<CacheFile>
    decreases upto,
{
    if upto <= 0 {
        Seq::empty()
    } else {
        let rest = survivors(files, gone, upto - 1);
        if gone.contains(upto - 1) {
            rest
        } else {
            rest.push(files[upto - 1])
        }
    }
}

/// Appending a file adds its bytes to the total.
pub proof fn lemma_total_push(files: Seq<CacheFile>, f: CacheFile)
    ensures
        total_cache_bytes(files.push(f)) == total_cache_bytes(files) + f.len,
    decreases files.len(),
{
    let s = files.push(f);
    assert(s.len() == files.len() + 1);
    assert(sum_kept(s, Seq::empty(), s.len() as int) == sum_kept(s, Seq::empty(), files.len() as int) + f.len as int);
    lemma_sum_prefix_agree(files, s, files.len() as int);
}

/// Two listings that agree on a prefix sum the prefix alike.
proof fn lemma_sum_prefix_agree(a: Seq<CacheFile>, b: Seq<CacheFile>, upto: int)
    requires
        0 <= upto <= a.len(),
        upto <= b.len(),
        forall|i: int| 0 <= i < upto ==> a[i] == b[i],
    ensures
        sum_kept(a, Seq::empty(), upto) == sum_kept(b, Seq::empty(), upto),
    decreases upto,
{
    if upto > 0 {
        lemma_sum_prefix_agree(a, b, upto - 1);
    }
}

/// The budget law: when an eviction plan succeeds, writing the download
/// into the surviving directory keeps the recognized-image bytes within
/// the configured budget.
pub proof fn lemma_download_budget(
    files: Seq<CacheFile>,
    gone: Seq<int>,
    fresh: CacheFile,
    budget: u64,
)
    requires
        remaining_bytes(files, gone) + fresh.len < budget,
    ensures
        image_cache_bytes(survivors(files, gone, files.len() as int).push(fresh)) <= budget,
{
    let kept = survivors(files, gone, files.len() as int);
    lemma_survivors_bytes(files, gone, files.len() as int);
    lemma_total_push(kept, fresh);
    let after = kept.push(fresh);
    lemma_image_bytes_le_total(after, after.len() as int);
}

} // verus!
