//! Ordering of collected frame files.
//!
//! The shell walks the extraction directory — possibly concurrently, so in
//! no particular order — and hands over the file names it found, as bytes.
//! This module keeps exactly the names with the recognized still-image
//! suffix and orders them by the numeric suffix embedded in the name (the
//! zero-padded sequence number the decoder writes), so that pairing adjacent
//! frames is deterministic whatever the traversal order was.

use vstd::multiset::Multiset;
use vstd::prelude::*;

verus! {

broadcast use vstd::seq_lib::group_to_multiset_ensures, vstd::multiset::group_multiset_axioms;

/// A decimal digit byte.
pub open spec fn is_digit(c: u8) -> bool {
    48 <= c && c <= 57
}

/// The name ends with the still-image suffix ".png".
pub open spec fn is_png_name(s: Seq<u8>) -> bool {
    &&& s.len() >= 4
    &&& s[s.len() - 4] == 46u8
    &&& s[s.len() - 3] == 112u8
    &&& s[s.len() - 2] == 110u8
    &&& s[s.len() - 1] == 103u8
}

/// Start of the maximal run of digit bytes that ends just before `end`.
pub open spec fn digit_run_start(s: Seq<u8>, end: int) -> int
    decreases end,
{
    if end <= 0 || !is_digit(s[end - 1]) {
        end
    } else {
        digit_run_start(s, end - 1)
    }
}

/// One saturating Horner step: append digit `d` to accumulator `acc`,
/// capping at `u64::MAX`.
pub open spec fn sat10(acc: int, d: int) -> int {
    if 10 * acc + d > u64::MAX {
        u64::MAX as int
    } else {
        10 * acc + d
    }
}

/// Value of the digit bytes `s[from..to)`, read as a decimal number and
/// saturating at `u64::MAX`.
pub open spec fn digits_val(s: Seq<u8>, from: int, to: int) -> int
    decreases to - from,
{
    if to <= from {
        0
    } else {
        sat10(digits_val(s, from, to - 1), s[to - 1] - 48)
    }
}

/// The ordering key of a frame file name: the value of the digit run that
/// ends right before the ".png" suffix.  A name without digits there keys 0.
pub open spec fn frame_key(s: Seq<u8>) -> int {
    digits_val(s, digit_run_start(s, s.len() - 4), s.len() - 4)
}

/// One collected frame file: its name and its ordering key.
pub struct FrameFile {
    pub key: u64,
    pub name: Vec<u8>,
}

/// The names of a run of frame files.
pub open spec fn name_views(s: Seq<FrameFile>) -> Seq<Seq<u8>> {
    s.map_values(|f: FrameFile| f.name@)
}

/// The multiset of the names with the still-image suffix among `s`.
pub open spec fn png_multiset(s: Seq<Seq<u8>>) -> Multiset<Seq<u8>>
    decreases s.len(),
{
    if s.len() == 0 {
        Multiset::empty()
    } else if is_png_name(s.last()) {
        png_multiset(s.drop_last()).insert(s.last())
    } else {
        png_multiset(s.drop_last())
    }
}

/// Collection is deterministic whatever order the directory walk produced:
/// two runs of frame files that are sorted by key, carry their names' own
/// keys, and hold the same names as a multiset are the same run outright —
/// provided no two names share a key, as the decoder's numbered names do.
pub proof fn lemma_order_deterministic(a: Seq<FrameFile>, b: Seq<FrameFile>)
    requires
        name_views(a).to_multiset() == name_views(b).to_multiset(),
        forall|i: int, j: int| 0 <= i < j < a.len() ==> a[i].key <= a[j].key,
        forall|i: int, j: int| 0 <= i < j < b.len() ==> b[i].key <= b[j].key,
        forall|i: int| 0 <= i < a.len() ==> (#[trigger] a[i]).key as int == frame_key(a[i].name@),
        forall|i: int| 0 <= i < b.len() ==> (#[trigger] b[i]).key as int == frame_key(b[i].name@),
        forall|i: int, j: int| 0 <= i < j < a.len() ==> frame_key(a[i].name@) != frame_key(
            a[j].name@,
        ),
        forall|i: int, j: int| 0 <= i < j < b.len() ==> frame_key(b[i].name@) != frame_key(
            b[j].name@,
        ),
    ensures
        name_views(a) == name_views(b),
    decreases a.len(),
{
    let va = name_views(a);
    let vb = name_views(b);
    assert(va.to_multiset().len() == vb.to_multiset().len());
    assert(va.len() == vb.len());
    if a.len() == 0 {
        assert(va =~= vb);
    } else {
        let la = a.len() - 1;
        let lb = b.len() - 1;
        assert(va.to_multiset().count(va[la]) > 0);
        assert(vb.to_multiset().count(va[la]) > 0);
        assert(vb.contains(va[la]));
        let w = choose|w: int| 0 <= w < vb.len() && vb[w] == va[la];
        assert(b[w].name@ == a[la].name@);
        assert(vb.to_multiset().count(vb[lb]) > 0);
        assert(va.contains(vb[lb]));
        let u = choose|u: int| 0 <= u < va.len() && va[u] == vb[lb];
        assert(a[u].name@ == b[lb].name@);
        assert(b[w].key <= b[lb].key);
        assert(a[u].key <= a[la].key);
        assert(frame_key(b[lb].name@) == frame_key(a[la].name@));
        assert(w == lb);
        assert(b[lb].name@ == a[la].name@);
        let a1 = a.drop_last();
        let b1 = b.drop_last();
        assert(name_views(a1) =~= va.remove(la));
        assert(name_views(b1) =~= vb.remove(lb));
        assert(va.remove(la).to_multiset() =~= va.to_multiset().remove(va[la]));
        assert(vb.remove(lb).to_multiset() =~= vb.to_multiset().remove(vb[lb]));
        assert(name_views(a1).to_multiset() == name_views(b1).to_multiset());
        lemma_order_deterministic(a1, b1);
        assert(va =~= vb) by {
            assert(forall|i: int| 0 <= i < la ==> va[i] == name_views(a1)[i]
                && vb[i] == name_views(b1)[i]);
        }
    }
}

/// Whether the name carries the still-image suffix.
pub fn is_png(name: &Vec<u8>) -> (r: bool)
    ensures
        r == is_png_name(name@),
{
    let n = name.len();
    n >= 4 && name[n - 4] == 46u8 && name[n - 3] == 112u8 && name[n - 2] == 110u8 && name[n
        - 1] == 103u8
}

/// Whether the byte before position `j` is a decimal digit.
fn digit_before(name: &Vec<u8>, j: usize) -> (r: bool)
    requires
        1 <= j <= name@.len(),
    ensures
        r == is_digit(name@[j - 1]),
{
    let c = name[j - 1];
    48 <= c && c <= 57
}

/// The ordering key of a frame file name: the decimal value, saturating at
/// `u64::MAX`, of the digit run right before the ".png" suffix.
pub fn frame_number(name: &Vec<u8>) -> (k: u64)
    requires
        is_png_name(name@),
    ensures
        k as int == frame_key(name@),
{
    let end = name.len() - 4;
    let mut j = end;
    while j > 0 && digit_before(name, j)
        invariant
            j <= end,
            end == name@.len() - 4,
            digit_run_start(name@, end as int) == digit_run_start(name@, j as int),
            forall|m: int| j <= m < end ==> is_digit(#[trigger] name@[m]),
        decreases j,
    {
        proof {
            assert(digit_run_start(name@, j as int) == digit_run_start(name@, j as int - 1));
        }
        j = j - 1;
    }
    proof {
        assert(digit_run_start(name@, j as int) == j as int);
    }
    let mut acc: u64 = 0;
    let mut m = j;
    while m < end
        invariant
            j <= m <= end,
            end == name@.len() - 4,
            forall|w: int| j <= w < end ==> is_digit(#[trigger] name@[w]),
            acc as int == digits_val(name@, j as int, m as int),
        decreases end - m,
    {
        let d = name[m] - 48;
        if acc > 1_844_674_407_370_955_161u64 || (acc == 1_844_674_407_370_955_161u64 && d > 5) {
            acc = u64::MAX;
        } else {
            acc = acc * 10 + d as u64;
        }
        m = m + 1;
    }
    acc
}

/// Keeps the names with the still-image suffix and orders them by their
/// numeric key.  The result is exactly the suffix-matching names — as a
/// multiset, nothing lost, nothing invented — sorted by key, each paired
/// with its key.
pub fn order_frames(names: Vec<Vec<u8>>) -> (r: Vec<FrameFile>)
    ensures
        forall|i: int| 0 <= i < r@.len() ==> is_png_name((#[trigger] r@[i]).name@) && r@[i].key
            as int == frame_key(r@[i].name@),
        forall|i: int, j: int| 0 <= i < j < r@.len() ==> r@[i].key <= r@[j].key,
        name_views(r@).to_multiset() == png_multiset(
            names@.map_values(|v: Vec<u8>| v@),
        ),
{
    let ghost orig: Seq<Seq<u8>> = names@.map_values(|v: Vec<u8>| v@);
    let mut names = names;
    let mut work: Vec<FrameFile> = Vec::new();
    proof {
        assert(name_views(work@) =~= Seq::<Seq<u8>>::empty());
        assert(name_views(work@).to_multiset() =~= Multiset::<Seq<u8>>::empty());
        assert(png_multiset(names@.map_values(|v: Vec<u8>| v@)).add(
            name_views(work@).to_multiset()) =~= png_multiset(orig));
    }
    while names.len() > 0
        invariant
            png_multiset(names@.map_values(|v: Vec<u8>| v@)).add(name_views(work@).to_multiset())
                == png_multiset(orig),
            forall|i: int| 0 <= i < work@.len() ==> is_png_name((#[trigger] work@[i]).name@)
                && work@[i].key as int == frame_key(work@[i].name@),
        decreases names@.len(),
    {
        let ghost prev = names@.map_values(|v: Vec<u8>| v@);
        let nm = match names.pop() {
            Some(v) => v,
            None => {
                proof {
                    assert(false);
                }
                Vec::new()
            },
        };
        proof {
            assert(names@.map_values(|v: Vec<u8>| v@) =~= prev.drop_last());
            assert(nm@ == prev.last());
        }
        if is_png(&nm) {
            let key = frame_number(&nm);
            let ghost before = work@;
            work.push(FrameFile { key, name: nm });
            proof {
                assert(name_views(work@) =~= name_views(before).push(work@.last().name@));
                assert(name_views(work@).to_multiset() =~= name_views(
                    before,
                ).to_multiset().insert(prev.last()));
                assert(png_multiset(prev) =~= png_multiset(prev.drop_last()).insert(prev.last()));
                assert(png_multiset(names@.map_values(|v: Vec<u8>| v@)).add(
                    name_views(work@).to_multiset()) =~= png_multiset(orig));
            }
        } else {
            proof {
                assert(png_multiset(prev) =~= png_multiset(prev.drop_last()));
            }
        }
    }
    let mut r: Vec<FrameFile> = Vec::new();
    proof {
        assert(names@.map_values(|v: Vec<u8>| v@) =~= Seq::<Seq<u8>>::empty());
        assert(png_multiset(Seq::<Seq<u8>>::empty()) =~= Multiset::<Seq<u8>>::empty());
        assert(name_views(r@) =~= Seq::<Seq<u8>>::empty());
        assert(name_views(r@).to_multiset().add(name_views(work@).to_multiset()) =~= png_multiset(
            orig,
        ));
    }
    while work.len() > 0
        invariant
            name_views(r@).to_multiset().add(name_views(work@).to_multiset()) == png_multiset(
                orig,
            ),
            forall|i: int| 0 <= i < work@.len() ==> is_png_name((#[trigger] work@[i]).name@)
                && work@[i].key as int == frame_key(work@[i].name@),
            forall|i: int| 0 <= i < r@.len() ==> is_png_name((#[trigger] r@[i]).name@) && r@[i].key
                as int == frame_key(r@[i].name@),
            forall|i: int, j: int| 0 <= i < j < r@.len() ==> r@[i].key <= r@[j].key,
            forall|i: int, j: int| 0 <= i < r@.len() && 0 <= j < work@.len() ==> (
            #[trigger] r@[i]).key <= (#[trigger] work@[j]).key,
        decreases work@.len(),
    {
        let mut best: usize = 0;
        let mut t: usize = 1;
        while t < work.len()
            invariant
                best < t <= work@.len(),
                work@.len() > 0,
                forall|u: int| 0 <= u < t ==> work@[best as int].key <= (#[trigger] work@[u]).key,
            decreases work@.len() - t,
        {
            if work[t].key < work[best].key {
                best = t;
            }
            t = t + 1;
        }
        let ghost wbefore = work@;
        let ghost rbefore = r@;
        let e = work.remove(best);
        proof {
            assert(name_views(work@) =~= name_views(wbefore).remove(best as int));
            assert(name_views(work@).to_multiset() =~= name_views(wbefore).to_multiset().remove(
                e.name@,
            ));
        }
        r.push(e);
        proof {
            assert(name_views(r@) =~= name_views(rbefore).push(e.name@));
            assert(name_views(wbefore).to_multiset().count(e.name@) > 0) by {
                assert(name_views(wbefore)[best as int] == e.name@);
                assert(name_views(wbefore).contains(e.name@));
            }
            assert(name_views(r@).to_multiset().add(name_views(work@).to_multiset())
                =~= png_multiset(orig));
        }
    }
    proof {
        assert(name_views(work@) =~= Seq::<Seq<u8>>::empty());
        assert(name_views(work@).to_multiset() =~= Multiset::<Seq<u8>>::empty());
        assert(name_views(r@).to_multiset() =~= png_multiset(orig));
    }
    r
}

} // verus!
