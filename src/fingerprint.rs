//! Content fingerprints of package sources: the MD5 digest, in hex, of the
//! bytes of a package's source files taken in the order of their names.

use vstd::multiset::Multiset;
use vstd::prelude::*;
use crate::paths::chars_of;
use crypto::digest::Digest;

verus! {

broadcast use vstd::seq_lib::group_to_multiset_ensures, vstd::multiset::lemma_multiset_empty_len;

/// What rust-crypto's MD5 gives, as lowercase hex, for `data`.
pub uninterp spec fn md5_hex_of(data: Seq<u8>) -> Seq<char>;

/// A lowercase hex digit.
pub open spec fn is_lower_hex(c: char) -> bool {
    ('0' <= c && c <= '9') || ('a' <= c && c <= 'f')
}

/// Relies on rust-crypto's `Md5` (`Digest::input`, then `Digest::result_str`,
/// which writes the 16 digest bytes with rustc-serialize's `ToHex`): the
/// digest of `data` as 32 lowercase hex digits.
#[verifier::external_body]
fn md5_hex(data: &Vec<u8>) -> (r: String)
    ensures
        r@ == md5_hex_of(data@),
        r@.len() == 32,
        forall|i: int| 0 <= i < r@.len() ==> is_lower_hex(#[trigger] r@[i]),
{
    let mut md5 = crypto::md5::Md5::new();
    md5.input(data.as_slice());
    md5.result_str()
}

/// One source file of a package: its path and its bytes.
pub struct SourceFile {
    pub name: String,
    pub content: Vec<u8>,
}

impl SourceFile {
    pub fn new(name: String, content: Vec<u8>) -> (r: Self)
        ensures
            r.name == name,
            r.content == content,
    {
        SourceFile { name, content }
    }
}

/// `a` comes before `b`, or equals it, in the order of character codes.
pub open spec fn name_le(a: Seq<char>, b: Seq<char>) -> bool
    decreases a.len(),
{
    if a.len() == 0 {
        true
    } else if b.len() == 0 {
        false
    } else if a[0] < b[0] {
        true
    } else if a[0] > b[0] {
        false
    } else {
        name_le(a.drop_first(), b.drop_first())
    }
}

proof fn lemma_name_le_total(a: Seq<char>, b: Seq<char>)
    ensures
        name_le(a, b) || name_le(b, a),
    decreases a.len(),
{
    if a.len() > 0 && b.len() > 0 && a[0] == b[0] {
        lemma_name_le_total(a.drop_first(), b.drop_first());
    }
}

proof fn lemma_name_le_trans(a: Seq<char>, b: Seq<char>, c: Seq<char>)
    requires
        name_le(a, b),
        name_le(b, c),
    ensures
        name_le(a, c),
    decreases a.len(),
{
    if a.len() > 0 && b.len() > 0 && c.len() > 0 && a[0] == b[0] && b[0] == c[0] {
        lemma_name_le_trans(a.drop_first(), b.drop_first(), c.drop_first());
    }
}

/// The files are in the order of their names.
pub open spec fn sorted_by_name(s: Seq<SourceFile>) -> bool {
    forall|j: int, k: int| 0 <= j < k < s.len() ==> name_le(s[j].name@, s[k].name@)
}

/// The bytes of the files, one after the other.
pub open spec fn concat_contents(s: Seq<SourceFile>) -> Seq<u8>
    decreases s.len(),
{
    if s.len() == 0 {
        Seq::empty()
    } else {
        concat_contents(s.drop_last()) + s.last().content@
    }
}

/// The fingerprint of files already in the order of their names.
pub open spec fn fingerprint_spec(s: Seq<SourceFile>) -> Seq<char> {
    md5_hex_of(concat_contents(s))
}

/// Whether name `a` comes before or equals name `b`.
fn le_name(a: &String, b: &String) -> (r: bool)
    ensures
        r == name_le(a@, b@),
{
    let x = chars_of(a.as_str());
    let y = chars_of(b.as_str());
    let mut i: usize = 0;
    assert(x@.subrange(0, x@.len() as int) =~= x@);
    assert(y@.subrange(0, y@.len() as int) =~= y@);
    while i < x.len()
        invariant
            i <= x@.len(),
            i <= y@.len(),
            x@ == a@,
            y@ == b@,
            forall|k: int| 0 <= k < i ==> k < y@.len() && x@[k] == y@[k],
            name_le(a@, b@) == name_le(x@.subrange(i as int, x@.len() as int), y@.subrange(
                i as int,
                y@.len() as int,
            )),
        decreases x@.len() - i,
    {
        assert(x@.subrange(i as int, x@.len() as int).len() > 0);
        if i >= y.len() {
            assert(y@.subrange(i as int, y@.len() as int).len() == 0);
            return false;
        }
        let ghost xs = x@.subrange(i as int, x@.len() as int);
        let ghost ys = y@.subrange(i as int, y@.len() as int);
        assert(xs[0] == x@[i as int]);
        assert(ys[0] == y@[i as int]);
        if x[i] < y[i] {
            return true;
        }
        if x[i] > y[i] {
            return false;
        }
        assert(xs.drop_first() =~= x@.subrange(i + 1, x@.len() as int));
        assert(ys.drop_first() =~= y@.subrange(i + 1, y@.len() as int));
        assert(x@[i as int] == y@[i as int]);
        i = i + 1;
    }
    assert(x@.subrange(i as int, x@.len() as int).len() == 0);
    true
}

/// `files` put in the order of their names.
pub fn sort_sources(files: Vec<SourceFile>) -> (r: Vec<SourceFile>)
    ensures
        sorted_by_name(r@),
        r@.to_multiset() == files@.to_multiset(),
{
    let mut rest = files;
    let mut out: Vec<SourceFile> = Vec::new();
    assert(out@.to_multiset() =~= Multiset::empty());
    while rest.len() > 0
        invariant
            sorted_by_name(out@),
            out@.to_multiset().add(rest@.to_multiset()) == files@.to_multiset(),
        decreases rest@.len(),
    {
        let ghost before = rest@;
        let f = rest.pop().unwrap();
        assert(before =~= rest@.push(f));
        let mut i: usize = 0;
        while i < out.len() && le_name(&out[i].name, &f.name)
            invariant
                i <= out@.len(),
                forall|j: int| 0 <= j < i ==> name_le(out@[j].name@, f.name@),
            decreases out@.len() - i,
        {
            i = i + 1;
        }
        proof {
            if i < out@.len() {
                lemma_name_le_total(out@[i as int].name@, f.name@);
                assert forall|k: int| i <= k < out@.len() implies name_le(
                    f.name@,
                    out@[k].name@,
                ) by {
                    if k > i {
                        lemma_name_le_trans(f.name@, out@[i as int].name@, out@[k].name@);
                    }
                }
            }
        }
        let ghost old_out = out@;
        out.insert(i, f);
        assert(out@ =~= old_out.insert(i as int, f));
        assert(sorted_by_name(out@)) by {
            assert forall|j: int, k: int| 0 <= j < k < out@.len() implies name_le(
                out@[j].name@,
                out@[k].name@,
            ) by {
                if j < i && k > i {
                    assert(out@[k] == old_out[k - 1]);
                    lemma_name_le_trans(out@[j].name@, f.name@, out@[k].name@);
                } else if k > i {
                    assert(out@[k] == old_out[k - 1]);
                }
            }
        }
    }
    out
}

/// The bytes of the files, one after the other.
fn concat_sources(files: &Vec<SourceFile>) -> (r: Vec<u8>)
    ensures
        r@ == concat_contents(files@),
{
    let mut data: Vec<u8> = Vec::new();
    let mut i: usize = 0;
    while i < files.len()
        invariant
            i <= files@.len(),
            data@ == concat_contents(files@.subrange(0, i as int)),
        decreases files@.len() - i,
    {
        let c = &files[i].content;
        let ghost start = data@;
        let mut j: usize = 0;
        while j < c.len()
            invariant
                j <= c@.len(),
                data@ == start + c@.subrange(0, j as int),
            decreases c@.len() - j,
        {
            data.push(c[j]);
            assert(data@ =~= start + c@.subrange(0, j + 1));
            j = j + 1;
        }
        assert(files@.subrange(0, i + 1).drop_last() =~= files@.subrange(0, i as int));
        assert(c@.subrange(0, j as int) =~= c@);
        i = i + 1;
    }
    assert(files@.subrange(0, i as int) =~= files@);
    data
}

/// The fingerprint of a package from its source files, in any order: the
/// MD5 hex digest of their bytes, the files taken in the order of their
/// names. A package that is a single file passes that one file.
pub fn get_cache_info(files: Vec<SourceFile>) -> (r: String)
    ensures
        exists|s: Seq<SourceFile>|
            sorted_by_name(s) && s.to_multiset() == files@.to_multiset() && r@
                == fingerprint_spec(s),
        r@.len() == 32,
        forall|i: int| 0 <= i < r@.len() ==> is_lower_hex(#[trigger] r@[i]),
{
    let sorted = sort_sources(files);
    let data = concat_sources(&sorted);
    let r = md5_hex(&data);
    assert(r@ == fingerprint_spec(sorted@));
    r
}

proof fn lemma_name_le_antisym(a: Seq<char>, b: Seq<char>)
    requires
        name_le(a, b),
        name_le(b, a),
    ensures
        a == b,
    decreases a.len(),
{
    if a.len() > 0 && b.len() > 0 {
        lemma_name_le_antisym(a.drop_first(), b.drop_first());
        assert(a =~= seq![a[0]] + a.drop_first());
        assert(b =~= seq![b[0]] + b.drop_first());
    } else {
        assert(a =~= b);
    }
}

/// No two files share a name.
pub open spec fn names_distinct(s: Seq<SourceFile>) -> bool {
    forall|i: int, j: int| 0 <= i < j < s.len() ==> s[i].name@ != s[j].name@
}

/// Two listings of the same files with distinct names, each put in the
/// order of the names, are the same sequence.
proof fn lemma_sorted_unique(a: Seq<SourceFile>, b: Seq<SourceFile>)
    requires
        sorted_by_name(a),
        sorted_by_name(b),
        names_distinct(a),
        a.to_multiset() == b.to_multiset(),
    ensures
        a == b,
    decreases a.len(),
{
    broadcast use vstd::seq_lib::group_to_multiset_ensures;

    vstd::seq_lib::to_multiset_len(a);
    vstd::seq_lib::to_multiset_len(b);
    if a.len() == 0 {
        assert(b.len() == 0);
        assert(a =~= b);
    } else {
        assert(b.len() == a.len());
        assert(a.to_multiset().count(a[0]) > 0);
        assert(b.contains(a[0]));
        let j = choose|j: int| 0 <= j < b.len() && b[j] == a[0];
        assert(a.contains(b[0])) by {
            assert(b.to_multiset().count(b[0]) > 0);
        }
        let k = choose|k: int| 0 <= k < a.len() && a[k] == b[0];
        if k > 0 {
            assert(name_le(a[0].name@, a[k].name@));
        }
        if j > 0 {
            assert(name_le(b[0].name@, b[j].name@));
        }
        lemma_name_le_total(a[0].name@, b[0].name@);
        if k != 0 {
            if j > 0 {
                lemma_name_le_antisym(a[0].name@, b[0].name@);
            } else {
                assert(b[0] == a[0]);
            }
            assert(a[0].name@ == a[k].name@);
        }
        assert(a[0] == b[0]);
        assert(a.remove(0) =~= a.drop_first());
        assert(b.remove(0) =~= b.drop_first());
        lemma_sorted_unique(a.drop_first(), b.drop_first());
        assert(a =~= b) by {
            assert forall|i: int| 0 <= i < a.len() implies a[i] == b[i] by {
                if i > 0 {
                    assert(a[i] == a.drop_first()[i - 1]);
                    assert(b[i] == b.drop_first()[i - 1]);
                }
            }
        }
    }
}

/// The fingerprint of a package does not depend on the order in which its
/// files were listed: any two orderings of the same files, with distinct
/// names, that `get_cache_info` may fingerprint give the same digest.
pub proof fn lemma_fingerprint_order_independent(
    files: Seq<SourceFile>,
    s1: Seq<SourceFile>,
    s2: Seq<SourceFile>,
)
    requires
        names_distinct(files),
        sorted_by_name(s1),
        sorted_by_name(s2),
        s1.to_multiset() == files.to_multiset(),
        s2.to_multiset() == files.to_multiset(),
    ensures
        fingerprint_spec(s1) == fingerprint_spec(s2),
{
    lemma_distinct_preserved(files, s1);
    lemma_sorted_unique(s1, s2);
}

/// A reordering of files with distinct names has distinct names.
proof fn lemma_distinct_preserved(files: Seq<SourceFile>, s: Seq<SourceFile>)
    requires
        names_distinct(files),
        s.to_multiset() == files.to_multiset(),
    ensures
        names_distinct(s),
{
    broadcast use vstd::seq_lib::group_to_multiset_ensures;

    assert(files.no_duplicates()) by {
        assert forall|i: int, j: int|
            0 <= i < files.len() && 0 <= j < files.len() && i != j implies files[i] != files[j] by {
            if i < j {
                assert(files[i].name@ != files[j].name@);
            } else {
                assert(files[j].name@ != files[i].name@);
            }
        }
    }
    files.lemma_multiset_has_no_duplicates();
    s.lemma_multiset_has_no_duplicates_conv();
    assert forall|i: int, j: int| 0 <= i < j < s.len() implies s[i].name@ != s[j].name@ by {
        if s[i].name@ == s[j].name@ {
            assert(s[i] != s[j]);
            assert(s.to_multiset().count(s[i]) > 0);
            assert(s.to_multiset().count(s[j]) > 0);
            let a = choose|a: int| 0 <= a < files.len() && files[a] == s[i];
            let b = choose|b: int| 0 <= b < files.len() && files[b] == s[j];
            if a < b {
                assert(files[a].name@ != files[b].name@);
            } else {
                assert(files[b].name@ != files[a].name@);
            }
        }
    }
}

} // verus!
