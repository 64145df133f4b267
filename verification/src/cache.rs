//! Content-addressed build caching. The project's allow-listed files are
//! sorted into a deterministic order (lexicographic by path), exact
//! duplicates are dropped, every file's bytes are streamed through a
//! cryptographic hash in that order, and the hex digest names the output
//! artifact. The same file contents give the same name whatever order the
//! filesystem enumerated them in; a name already present among the build
//! outputs is a cache hit and no bundling is needed.

use vstd::prelude::*;
use vstd::string::*;
use vstd::relations::{sorted_by, total_ordering};
use vstd::seq_lib::*;
use vstd::multiset::Multiset;
use crate::strings::{
    views_of,
    chars_eq,
    str_le,
    lex_le_chars,
    lemma_lex_le_total,
    lemma_lex_le_antisym,
    lemma_lex_le_trans,
};

verus! {

/// One allow-listed project file: its path and its raw bytes.
pub struct CacheFile {
    pub path: String,
    pub bytes: Vec<u8>,
}

/// Lexicographic `<=` on byte sequences.
pub open spec fn byte_le(a: Seq<u8>, b: Seq<u8>) -> bool
    decreases a.len(),
{
    if a.len() == 0 {
        true
    } else if b.len() == 0 {
        false
    } else if a[0] == b[0] {
        byte_le(a.drop_first(), b.drop_first())
    } else {
        a[0] < b[0]
    }
}

proof fn lemma_byte_le_refl(a: Seq<u8>)
    ensures
        byte_le(a, a),
    decreases a.len(),
{
    if a.len() > 0 {
        lemma_byte_le_refl(a.drop_first());
    }
}

proof fn lemma_byte_le_total(a: Seq<u8>, b: Seq<u8>)
    ensures
        byte_le(a, b) || byte_le(b, a),
    decreases a.len(),
{
    if a.len() > 0 && b.len() > 0 && a[0] == b[0] {
        lemma_byte_le_total(a.drop_first(), b.drop_first());
    }
}

proof fn lemma_byte_le_antisym(a: Seq<u8>, b: Seq<u8>)
    requires
        byte_le(a, b),
        byte_le(b, a),
    ensures
        a == b,
    decreases a.len(),
{
    if a.len() > 0 && b.len() > 0 && a[0] == b[0] {
        lemma_byte_le_antisym(a.drop_first(), b.drop_first());
        assert forall|i: int| 0 <= i < a.len() implies a[i] == b[i] by {
            if i > 0 {
                assert(a[i] == a.drop_first()[i - 1]);
                assert(b[i] == b.drop_first()[i - 1]);
            }
        }
        assert(a =~= b);
    } else {
        assert(a =~= b);
    }
}

proof fn lemma_byte_le_trans(a: Seq<u8>, b: Seq<u8>, c: Seq<u8>)
    requires
        byte_le(a, b),
        byte_le(b, c),
    ensures
        byte_le(a, c),
    decreases a.len(),
{
    if a.len() > 0 && b.len() > 0 && c.len() > 0 && a[0] == b[0] && b[0] == c[0] {
        lemma_byte_le_trans(a.drop_first(), b.drop_first(), c.drop_first());
    }
}

proof fn lemma_lex_le_refl(a: Seq<char>)
    ensures
        lex_le_chars(a, a),
    decreases a.len(),
{
    if a.len() > 0 {
        lemma_lex_le_refl(a.drop_first());
    }
}

/// The view of one file: its path characters and its bytes.
pub open spec fn file_views(s: Seq<CacheFile>) -> Seq<(Seq<char>, Seq<u8>)> {
    s.map_values(|f: CacheFile| (f.path@, f.bytes@))
}

/// Ordering on file views: by path, ties broken by bytes.
pub open spec fn pair_le(x: (Seq<char>, Seq<u8>), y: (Seq<char>, Seq<u8>)) -> bool {
    if x.0 == y.0 {
        byte_le(x.1, y.1)
    } else {
        lex_le_chars(x.0, y.0)
    }
}

/// `pair_le` as a relation value.
pub open spec fn pair_leq() -> spec_fn((Seq<char>, Seq<u8>), (Seq<char>, Seq<u8>)) -> bool {
    |x: (Seq<char>, Seq<u8>), y: (Seq<char>, Seq<u8>)| pair_le(x, y)
}

/// `pair_le` is a total ordering on file views.
pub proof fn lemma_pair_le_total_ordering()
    ensures
        total_ordering(pair_leq()),
{
    let r = pair_leq();
    assert forall|x: (Seq<char>, Seq<u8>)| #[trigger] r(x, x) by {
        lemma_byte_le_refl(x.1);
    }
    assert forall|x: (Seq<char>, Seq<u8>), y: (Seq<char>, Seq<u8>)|
        #[trigger] r(x, y) && #[trigger] r(y, x) implies x == y by {
        if x.0 == y.0 {
            lemma_byte_le_antisym(x.1, y.1);
        } else {
            lemma_lex_le_antisym(x.0, y.0);
        }
    }
    assert forall|x: (Seq<char>, Seq<u8>), y: (Seq<char>, Seq<u8>), z: (Seq<char>, Seq<u8>)|
        #[trigger] r(x, y) && #[trigger] r(y, z) implies r(x, z) by {
        if x.0 == y.0 && y.0 == z.0 {
            lemma_byte_le_trans(x.1, y.1, z.1);
        } else if x.0 != y.0 && y.0 != z.0 {
            lemma_lex_le_trans(x.0, y.0, z.0);
            if x.0 == z.0 {
                lemma_lex_le_antisym(x.0, y.0);
            }
        }
    }
    assert forall|x: (Seq<char>, Seq<u8>), y: (Seq<char>, Seq<u8>)|
        #[trigger] r(x, y) || #[trigger] r(y, x) by {
        if x.0 == y.0 {
            lemma_byte_le_total(x.1, y.1);
        } else {
            lemma_lex_le_total(x.0, y.0);
        }
    }
}

/// Decides `byte_le` on the suffixes from `i`.
fn bytes_le_from(a: &Vec<u8>, b: &Vec<u8>, i: usize) -> (r: bool)
    requires
        i <= a@.len(),
        i <= b@.len(),
    ensures
        r == byte_le(a@.skip(i as int), b@.skip(i as int)),
    decreases a@.len() - i,
{
    if i >= a.len() {
        proof {
            assert(a@.skip(i as int).len() == 0);
        }
        return true;
    }
    if i >= b.len() {
        proof {
            assert(b@.skip(i as int).len() == 0);
            assert(a@.skip(i as int).len() > 0);
        }
        return false;
    }
    let ca = a[i];
    let cb = b[i];
    proof {
        assert(a@.skip(i as int)[0] == a@[i as int]);
        assert(b@.skip(i as int)[0] == b@[i as int]);
        assert(a@.skip(i as int).drop_first() =~= a@.skip(i + 1));
        assert(b@.skip(i as int).drop_first() =~= b@.skip(i + 1));
    }
    if ca != cb {
        ca < cb
    } else {
        bytes_le_from(a, b, i + 1)
    }
}

/// Decides `pair_le` on two files.
fn file_le(a: &CacheFile, b: &CacheFile) -> (r: bool)
    ensures
        r == pair_le((a.path@, a.bytes@), (b.path@, b.bytes@)),
{
    if chars_eq(a.path.as_str(), b.path.as_str()) {
        let r = bytes_le_from(&a.bytes, &b.bytes, 0);
        proof {
            assert(a.bytes@.skip(0) =~= a.bytes@);
            assert(b.bytes@.skip(0) =~= b.bytes@);
        }
        r
    } else {
        str_le(a.path.as_str(), b.path.as_str())
    }
}

/// Sorts files by `pair_le` (selection of a least element each round),
/// keeping exactly the same files.
pub fn sort_files(input: Vec<CacheFile>) -> (r: Vec<CacheFile>)
    ensures
        sorted_by(file_views(r@), pair_leq()),
        file_views(r@).to_multiset() == file_views(input@).to_multiset(),
{
    broadcast use vstd::multiset::group_multiset_axioms;

    let ghost total_ms = file_views(input@).to_multiset();
    let mut work = input;
    let mut out: Vec<CacheFile> = Vec::new();
    proof {
        assert(file_views(out@) =~= Seq::<(Seq<char>, Seq<u8>)>::empty());
        file_views(out@).to_multiset_ensures();
        assert(file_views(out@).to_multiset().add(file_views(work@).to_multiset()) =~= total_ms);
    }
    while work.len() > 0
        invariant
            sorted_by(file_views(out@), pair_leq()),
            file_views(out@).to_multiset().add(file_views(work@).to_multiset()) == total_ms,
            forall|i: int, j: int|
                0 <= i < out@.len() && 0 <= j < work@.len() ==> pair_le(
                    #[trigger] file_views(out@)[i],
                    #[trigger] file_views(work@)[j],
                ),
        decreases work@.len(),
    {
        let mut m: usize = 0;
        let mut t: usize = 1;
        proof {
            lemma_byte_le_refl(file_views(work@)[0].1);
            assert(pair_le(file_views(work@)[0], file_views(work@)[0]));
        }
        while t < work.len()
            invariant
                work@.len() > 0,
                m < t,
                t <= work@.len(),
                forall|j: int|
                    0 <= j < t ==> pair_le(
                        file_views(work@)[m as int],
                        #[trigger] file_views(work@)[j],
                    ),
        decreases work@.len() - t,
        {
            if file_le(&work[t], &work[m]) {
                proof {
                    assert forall|j: int|
                        0 <= j < t + 1 implies pair_le(
                        file_views(work@)[t as int],
                        #[trigger] file_views(work@)[j],
                    ) by {
                        if j < t {
                            lemma_pair_le_total_ordering();
                            assert(pair_le(file_views(work@)[m as int], file_views(work@)[j]));
                            assert(pair_leq()(file_views(work@)[t as int], file_views(work@)[m as int]));
                            assert(pair_leq()(file_views(work@)[m as int], file_views(work@)[j]));
                            assert(pair_leq()(file_views(work@)[t as int], file_views(work@)[j]));
                        } else {
                            lemma_byte_le_refl(file_views(work@)[t as int].1);
                        }
                    }
                }
                m = t;
            } else {
                proof {
                    lemma_pair_le_total_ordering();
                    assert(pair_leq()(file_views(work@)[t as int], file_views(work@)[m as int])
                        || pair_leq()(file_views(work@)[m as int], file_views(work@)[t as int]));
                    assert(pair_le(file_views(work@)[m as int], file_views(work@)[t as int]));
                }
            }
            t = t + 1;
        }
        let ghost workv = file_views(work@);
        let ghost outv = file_views(out@);
        let ghost x = workv[m as int];
        let f = work.remove(m);
        out.push(f);
        proof {
            assert(file_views(work@) =~= workv.remove(m as int));
            assert(file_views(out@) =~= outv.push(x));
            workv.to_multiset_ensures();
            outv.to_multiset_ensures();
            assert(workv.remove(m as int).to_multiset() =~= workv.to_multiset().remove(x));
            assert(outv.push(x).to_multiset() =~= outv.to_multiset().insert(x));
            assert(workv.to_multiset().contains(x)) by {
                workv.to_multiset_ensures();
                assert(workv.contains(x));
            }
            assert(outv.to_multiset().insert(x).add(workv.to_multiset().remove(x))
                =~= outv.to_multiset().add(workv.to_multiset()));
            // the least element keeps the output sorted and below the rest
            assert forall|i: int, j: int|
                0 <= i < out@.len() && 0 <= j < work@.len() implies pair_le(
                #[trigger] file_views(out@)[i],
                #[trigger] file_views(work@)[j],
            ) by {
                let wj = file_views(work@)[j];
                if j < m {
                    assert(wj == workv[j]);
                } else {
                    assert(wj == workv[j + 1]);
                }
                if i < outv.len() {
                    assert(file_views(out@)[i] == outv[i]);
                } else {
                    assert(file_views(out@)[i] == x);
                }
            }
            assert forall|i: int, j: int|
                0 <= i < j < file_views(out@).len() implies #[trigger] pair_leq()(
                file_views(out@)[i],
                file_views(out@)[j],
            ) by {
                if j < outv.len() {
                    assert(sorted_by(outv, pair_leq()));
                    assert(pair_leq()(outv[i], outv[j]));
                } else {
                    assert(file_views(out@)[j] == x);
                    assert(pair_le(outv[i], x));
                }
            }
        }
    }
    proof {
        assert(file_views(work@) =~= Seq::<(Seq<char>, Seq<u8>)>::empty());
        file_views(work@).to_multiset_ensures();
        assert(file_views(out@).to_multiset().add(Multiset::empty()) =~= file_views(
            out@,
        ).to_multiset());
    }
    out
}

/// Byte-vector equality.
fn bytes_eq(a: &Vec<u8>, b: &Vec<u8>) -> (r: bool)
    ensures
        r == (a@ == b@),
{
    if a.len() != b.len() {
        return false;
    }
    let mut i: usize = 0;
    while i < a.len()
        invariant
            a@.len() == b@.len(),
            i <= a@.len(),
            forall|j: int| 0 <= j < i ==> a@[j] == b@[j],
        decreases a@.len() - i,
    {
        if a[i] != b[i] {
            return false;
        }
        i = i + 1;
    }
    proof {
        assert(a@ =~= b@);
    }
    true
}

/// Drops a file whose view repeats the previously kept one: on a sorted
/// sequence this deduplicates exactly.
pub open spec fn dedup_from(
    s: Seq<(Seq<char>, Seq<u8>)>,
    prev: Option<(Seq<char>, Seq<u8>)>,
) -> Seq<(Seq<char>, Seq<u8>)>
    decreases s.len(),
{
    if s.len() == 0 {
        Seq::empty()
    } else if prev == Option::Some(s[0]) {
        dedup_from(s.drop_first(), prev)
    } else {
        seq![s[0]] + dedup_from(s.drop_first(), Option::Some(s[0]))
    }
}

/// The bytes of the files, concatenated in order.
pub open spec fn concat_bytes(s: Seq<(Seq<char>, Seq<u8>)>) -> Seq<u8>
    decreases s.len(),
{
    if s.len() == 0 {
        Seq::empty()
    } else {
        s[0].1 + concat_bytes(s.drop_first())
    }
}

proof fn lemma_concat_bytes_push(s: Seq<(Seq<char>, Seq<u8>)>, x: (Seq<char>, Seq<u8>))
    ensures
        concat_bytes(s.push(x)) =~= concat_bytes(s) + x.1,
    decreases s.len(),
{
    let p = s.push(x);
    if s.len() == 0 {
        assert(p[0] == x);
        assert(p.drop_first() =~= Seq::<(Seq<char>, Seq<u8>)>::empty());
    } else {
        lemma_concat_bytes_push(s.drop_first(), x);
        assert(p[0] == s[0]);
        assert(p.drop_first() =~= s.drop_first().push(x));
        assert(concat_bytes(p) == p[0].1 + concat_bytes(p.drop_first()));
        assert(concat_bytes(s) == s[0].1 + concat_bytes(s.drop_first()));
    }
}

#[verifier::external_type_specification]
#[verifier::external_body]
pub struct ExHasher(blake3::Hasher);

/// The byte stream a hasher has been fed so far.
pub uninterp spec fn hasher_fed(h: blake3::Hasher) -> Seq<u8>;

/// The lower-case hex digest blake3 computes for a byte stream: a function
/// of the bytes alone, the same in every process and on every machine.
pub uninterp spec fn blake3_hex(bytes: Seq<u8>) -> Seq<char>;

/// Relies on blake3::Hasher::new: a fresh hasher has been fed nothing.
#[verifier::external_body]
fn hasher_new() -> (h: blake3::Hasher)
    ensures
        hasher_fed(h) == Seq::<u8>::empty(),
{
    blake3::Hasher::new()
}

/// Relies on blake3::Hasher::update: appends the chunk to the fed stream.
#[verifier::external_body]
fn hasher_update(h: &mut blake3::Hasher, chunk: &Vec<u8>)
    ensures
        hasher_fed(*final(h)) == hasher_fed(*old(h)) + chunk@,
{
    h.update(chunk.as_slice());
}

/// Whether `c` is a lower-case hexadecimal digit.
pub open spec fn hex_lower_char(c: char) -> bool {
    (('0' as int) <= (c as int) <= ('9' as int)) || (('a' as int) <= (c as int) <= ('f' as int))
}

/// Relies on blake3::Hasher::finalize and Hash::to_hex, documented to
/// render the 32-byte digest as exactly 64 lower-case hexadecimal
/// characters: the hex digest of the fed stream.
#[verifier::external_body]
fn hasher_hex(h: &blake3::Hasher) -> (r: String)
    ensures
        r@ == blake3_hex(hasher_fed(*h)),
        r@.len() == 64,
        forall|i: int| 0 <= i < 64 ==> hex_lower_char(#[trigger] r@[i]),
{
    h.finalize().to_hex().to_string()
}

/// The artifact name for a project tree: sort the file views, drop exact
/// duplicates, hash the bytes in that order, render the digest in hex, and
/// append the script extension.
pub open spec fn build_name_spec(fv: Seq<(Seq<char>, Seq<u8>)>) -> Seq<char> {
    blake3_hex(concat_bytes(dedup_from(fv.sort_by(pair_leq()), Option::None))) + ".js"@
}

/// Computes the content-addressed artifact name of a project tree.
pub fn generate_build_file_name(files: Vec<CacheFile>) -> (r: String)
    ensures
        r@ == build_name_spec(file_views(files@)),
        r@.len() == 67,
        forall|i: int| 0 <= i < 64 ==> hex_lower_char(#[trigger] r@[i]),
        r@.subrange(64, 67) == ".js"@,
{
    let ghost input_fv = file_views(files@);
    let sorted = sort_files(files);
    proof {
        lemma_pair_le_total_ordering();
        input_fv.lemma_sort_by_ensures(pair_leq());
        lemma_sorted_unique(file_views(sorted@), input_fv.sort_by(pair_leq()), pair_leq());
    }
    let ghost sortedv = file_views(sorted@);
    // deduplicate adjacent equal files
    let mut dd: Vec<CacheFile> = Vec::new();
    let mut i: usize = 0;
    proof {
        assert(sortedv.skip(0) =~= sortedv);
        assert(file_views(dd@) =~= Seq::<(Seq<char>, Seq<u8>)>::empty());
    }
    while i < sorted.len()
        invariant
            i <= sorted@.len(),
            sortedv == file_views(sorted@),
            dedup_from(sortedv, Option::None) =~= file_views(dd@) + dedup_from(
                sortedv.skip(i as int),
                prev_view(dd@),
            ),
        decreases sorted@.len() - i,
    {
        let ghost rest = sortedv.skip(i as int);
        proof {
            assert(rest[0] == sortedv[i as int]);
            assert(rest.drop_first() =~= sortedv.skip(i + 1));
        }
        let keep: bool = if dd.len() == 0 {
            true
        } else {
            let last = &dd[dd.len() - 1];
            let cur = &sorted[i];
            !(chars_eq(last.path.as_str(), cur.path.as_str()) && bytes_eq(&last.bytes, &cur.bytes))
        };
        let ghost ddv0 = file_views(dd@);
        if keep {
            dd.push(CacheFile {
                path: sorted[i].path.clone(),
                bytes: sorted[i].bytes.clone(),
            });
            proof {
                assert(file_views(dd@) =~= ddv0.push(sortedv[i as int]));
                assert(prev_view(dd@) == Option::Some(sortedv[i as int]));
            }
        } else {
            proof {
                assert(prev_view(dd@) == Option::Some(sortedv[i as int]));
            }
        }
        i = i + 1;
    }
    proof {
        assert(sortedv.skip(sortedv.len() as int) =~= Seq::<(Seq<char>, Seq<u8>)>::empty());
        assert(dedup_from(sortedv, Option::None) =~= file_views(dd@));
    }
    // hash every byte in order
    let mut h = hasher_new();
    let mut k: usize = 0;
    proof {
        assert(file_views(dd@).take(0) =~= Seq::<(Seq<char>, Seq<u8>)>::empty());
    }
    while k < dd.len()
        invariant
            k <= dd@.len(),
            hasher_fed(h) == concat_bytes(file_views(dd@).take(k as int)),
        decreases dd@.len() - k,
    {
        hasher_update(&mut h, &dd[k].bytes);
        proof {
            let dv = file_views(dd@);
            assert(dv.take(k + 1) =~= dv.take(k as int).push(dv[k as int]));
            lemma_concat_bytes_push(dv.take(k as int), dv[k as int]);
        }
        k = k + 1;
    }
    proof {
        assert(file_views(dd@).take(dd@.len() as int) =~= file_views(dd@));
    }
    let mut name = hasher_hex(&h);
    name.append(".js");
    proof {
        reveal_strlit(".js");
        assert(name@.subrange(64, 67) =~= ".js"@);
    }
    name
}

/// The view of the last kept file, if any.
pub open spec fn prev_view(dd: Seq<CacheFile>) -> Option<(Seq<char>, Seq<u8>)> {
    if dd.len() == 0 {
        Option::None
    } else {
        Option::Some((dd.last().path@, dd.last().bytes@))
    }
}

/// Whether a path belongs in the content hash: it carries an allow-listed
/// extension and does not lie under the build-output directory. The
/// allow-list covers exactly the extensions resolution recognizes
/// ([`crate::resolver::known_ext`]): the cache is correct only if every
/// file that can affect bundle output is hashed.
pub open spec fn allowed_for_hash(p: Seq<char>, build_dir: Seq<char>) -> bool {
    crate::resolver::known_ext(p) && !build_dir.is_prefix_of(p)
}

/// Decides whether a path belongs in the content hash.
pub fn is_allowed_for_hash(p: &str, build_dir: &str) -> (r: bool)
    ensures
        r == allowed_for_hash(p@, build_dir@),
{
    crate::resolver::has_known_ext(p) && !crate::strings::has_prefix(p, build_dir)
}

/// What one `build_project` invocation decides: the artifact name for the
/// current tree, and whether that artifact already exists (a cache hit, so
/// no bundling is needed).
pub struct BuildPlan {
    pub file_name: String,
    pub cache_hit: bool,
}

/// Whether a name is among the existing artifact names.
fn contains_name(names: &Vec<String>, p: &str) -> (r: bool)
    ensures
        r == views_of(names@).contains(p@),
{
    let mut i: usize = 0;
    while i < names.len()
        invariant
            i <= names@.len(),
            forall|j: int| 0 <= j < i ==> names@[j]@ != p@,
        decreases names@.len() - i,
    {
        if chars_eq(names[i].as_str(), p) {
            proof {
                assert(views_of(names@)[i as int] == p@);
            }
            return true;
        }
        i = i + 1;
    }
    proof {
        if views_of(names@).contains(p@) {
            let j = choose|j: int| 0 <= j < views_of(names@).len() && views_of(names@)[j] == p@;
            assert(names@[j]@ == p@);
        }
    }
    false
}

/// Plans one build: computes the artifact name for the project files and
/// reports a cache hit exactly when that name is already among the existing
/// artifact names.
pub fn plan_build(files: Vec<CacheFile>, existing: &Vec<String>) -> (r: BuildPlan)
    ensures
        r.file_name@ == build_name_spec(file_views(files@)),
        r.cache_hit == views_of(existing@).contains(build_name_spec(file_views(files@))),
{
    let ghost fv = file_views(files@);
    let name = generate_build_file_name(files);
    let hit = contains_name(existing, name.as_str());
    BuildPlan { file_name: name, cache_hit: hit }
}

/// The artifact name is a function of the set of (path, bytes) pairs alone:
/// two enumerations of the same project tree, in any order, yield the same
/// name.
pub proof fn lemma_build_name_deterministic(
    f1: Seq<(Seq<char>, Seq<u8>)>,
    f2: Seq<(Seq<char>, Seq<u8>)>,
)
    requires
        f1.to_multiset() == f2.to_multiset(),
    ensures
        build_name_spec(f1) == build_name_spec(f2),
{
    lemma_pair_le_total_ordering();
    f1.lemma_sort_by_ensures(pair_leq());
    f2.lemma_sort_by_ensures(pair_leq());
    lemma_sorted_unique(f1.sort_by(pair_leq()), f2.sort_by(pair_leq()), pair_leq());
}

/// Planning a build twice over one project tree names the same artifact,
/// and once that artifact exists the second plan is a cache hit: no
/// bundling happens again.
pub proof fn lemma_second_build_hits_cache(
    f1: Seq<(Seq<char>, Seq<u8>)>,
    f2: Seq<(Seq<char>, Seq<u8>)>,
    outputs: Seq<Seq<char>>,
)
    requires
        f1.to_multiset() == f2.to_multiset(),
        outputs.contains(build_name_spec(f1)),
    ensures
        build_name_spec(f2) == build_name_spec(f1),
        outputs.contains(build_name_spec(f2)),
{
    lemma_build_name_deterministic(f1, f2);
}

} // verus!
