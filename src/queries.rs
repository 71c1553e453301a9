//! Read-only aggregate queries over a collection of records.

use vstd::prelude::*;
use crate::fields::ReleaseStatus;
use crate::record::{Record, RecordView};
use crate::text::{chars_of, find_pattern, first_match};
use vstd::arithmetic::div_mod::lemma_fundamental_div_mod;

verus! {

/// A record lists exactly one sensor: its sensors cell is present and holds no comma.
pub open spec fn is_mono_feature(r: RecordView) -> bool {
    match r.sensors {
        Some(s) => first_match(s, ","@) is None,
        None => false,
    }
}

/// How many of `s` list exactly one sensor.
pub open spec fn mono_feature_count(s: Seq<Record>) -> nat
    decreases s.len(),
{
    if s.len() == 0 {
        0
    } else {
        mono_feature_count(s.drop_last()) + if is_mono_feature(s.last()@) {
            1nat
        } else {
            0nat
        }
    }
}

/// Counts the records that list exactly one sensor.
pub fn find_mono_feature(records: &Vec<Record>) -> (r: usize)
    ensures
        r == mono_feature_count(records@),
{
    let comma = chars_of(",");
    let mut count: usize = 0;
    let mut i: usize = 0;
    while i < records.len()
        invariant
            i <= records@.len(),
            comma@ == ","@,
            count == mono_feature_count(records@.take(i as int)),
            count <= i,
        decreases records@.len() - i,
    {
        assert(records@.take(i + 1).drop_last() =~= records@.take(i as int));
        match &records[i].sensors {
            Some(x) => {
                let cells = chars_of(x.as_str());
                match find_pattern(&cells, &comma) {
                    Some(_) => {},
                    None => {
                        count = count + 1;
                    },
                }
            },
            None => {},
        }
        i = i + 1;
    }
    assert(records@.take(records@.len() as int) =~= records@);
    count
}

/// A phone announced in one year and released in another.
pub struct YearMismatch {
    pub manufacturer: String,
    pub model: String,
    pub announced: u32,
    pub released: u32,
}

impl View for YearMismatch {
    type V = (Seq<char>, Seq<char>, u32, u32);

    open spec fn view(&self) -> (Seq<char>, Seq<char>, u32, u32) {
        (self.manufacturer@, self.model@, self.announced, self.released)
    }
}

/// The mismatch a record shows: both years present and different.
pub open spec fn mismatch_of(r: RecordView) -> Option<(Seq<char>, Seq<char>, u32, u32)> {
    match r.announced_year {
        Some(a) => match r.release_status {
            Some(ReleaseStatus::Year(y)) => if a != y {
                Some((r.manufacturer, r.model, a, y))
            } else {
                None
            },
            _ => None,
        },
        None => None,
    }
}

/// The mismatches of `s`, in order.
pub open spec fn year_mismatches(s: Seq<Record>) -> Seq<(Seq<char>, Seq<char>, u32, u32)>
    decreases s.len(),
{
    if s.len() == 0 {
        Seq::empty()
    } else {
        let prev = year_mismatches(s.drop_last());
        match mismatch_of(s.last()@) {
            Some(m) => prev.push(m),
            None => prev,
        }
    }
}

/// Lists, in order, the records whose announced year differs from their release year.
pub fn find_year_mismatch(records: &Vec<Record>) -> (r: Vec<YearMismatch>)
    ensures
        r@.len() == year_mismatches(records@).len(),
        forall|j: int| 0 <= j < r@.len() ==> #[trigger] r@[j]@ == year_mismatches(records@)[j],
{
    let mut out: Vec<YearMismatch> = Vec::new();
    let mut i: usize = 0;
    while i < records.len()
        invariant
            i <= records@.len(),
            out@.len() == year_mismatches(records@.take(i as int)).len(),
            forall|j: int|
                0 <= j < out@.len() ==> #[trigger] out@[j]@ == year_mismatches(
                    records@.take(i as int),
                )[j],
        decreases records@.len() - i,
    {
        assert(records@.take(i + 1).drop_last() =~= records@.take(i as int));
        let rec = &records[i];
        match rec.announced_year {
            Some(a) => match rec.release_status {
                Some(ReleaseStatus::Year(y)) => {
                    if a != y {
                        out.push(
                            YearMismatch {
                                manufacturer: rec.manufacturer.clone(),
                                model: rec.model.clone(),
                                announced: a,
                                released: y,
                            },
                        );
                    }
                },
                _ => {},
            },
            None => {},
        }
        i = i + 1;
    }
    assert(records@.take(records@.len() as int) =~= records@);
    out
}

/// The manufacturers of the weighed records of `s`, each once, in order of first appearance.
pub open spec fn makers_seen(s: Seq<Record>) -> Seq<Seq<char>>
    decreases s.len(),
{
    if s.len() == 0 {
        Seq::empty()
    } else {
        let prev = makers_seen(s.drop_last());
        let r = s.last()@;
        match r.body_weight_grams {
            Some(_) => if prev.contains(r.manufacturer) {
                prev
            } else {
                prev.push(r.manufacturer)
            },
            None => prev,
        }
    }
}

/// The summed weight, in millionths of a gram, of the records of `s` made by `m`.
pub open spec fn weight_total(s: Seq<Record>, m: Seq<char>) -> nat
    decreases s.len(),
{
    if s.len() == 0 {
        0
    } else {
        let r = s.last()@;
        weight_total(s.drop_last(), m) + match r.body_weight_grams {
            Some(w) => if r.manufacturer == m {
                w.micros as nat
            } else {
                0nat
            },
            None => 0nat,
        }
    }
}

/// How many weighed records of `s` are made by `m`.
pub open spec fn weight_count(s: Seq<Record>, m: Seq<char>) -> nat
    decreases s.len(),
{
    if s.len() == 0 {
        0
    } else {
        let r = s.last()@;
        weight_count(s.drop_last(), m) + match r.body_weight_grams {
            Some(_) => if r.manufacturer == m {
                1nat
            } else {
                0nat
            },
            None => 0nat,
        }
    }
}

/// The mean `ta / ca` exceeds the mean `tb / cb`.
pub open spec fn mean_exceeds(ta: int, ca: int, tb: int, cb: int) -> bool {
    ta * cb > tb * ca
}

/// The manufacturers `a`'s records weigh more on average than `b`'s.
pub open spec fn heavier(s: Seq<Record>, a: Seq<char>, b: Seq<char>) -> bool {
    mean_exceeds(
        weight_total(s, a) as int,
        weight_count(s, a) as int,
        weight_total(s, b) as int,
        weight_count(s, b) as int,
    )
}

/// The `k`-th manufacturer seen has the greatest positive mean weight, and is
/// the first to reach it.
pub open spec fn is_heaviest_at(s: Seq<Record>, k: int) -> bool {
    let ms = makers_seen(s);
    &&& 0 <= k < ms.len()
    &&& weight_total(s, ms[k]) > 0
    &&& forall|j: int| 0 <= j < k ==> heavier(s, ms[k], #[trigger] ms[j])
    &&& forall|j: int| k < j < ms.len() ==> !heavier(s, #[trigger] ms[j], ms[k])
}

/// The weighed records of one manufacturer: their summed weight, in millionths
/// of a gram, and their number.
pub struct WeightTally {
    pub manufacturer: String,
    pub total_micros: u128,
    pub count: usize,
}

/// A manufacturer that is not among those seen has no weighed record.
proof fn lemma_unseen_maker(s: Seq<Record>, m: Seq<char>)
    requires
        !makers_seen(s).contains(m),
    ensures
        weight_total(s, m) == 0,
        weight_count(s, m) == 0,
    decreases s.len(),
{
    if s.len() > 0 {
        let prev = makers_seen(s.drop_last());
        let r = s.last()@;
        if prev.contains(m) {
            let k = choose|k: int| 0 <= k < prev.len() && prev[k] == m;
            assert(makers_seen(s)[k] == m);
        }
        if r.body_weight_grams is Some && r.manufacturer == m {
            assert(makers_seen(s)[prev.len() as int] == m);
        }
        lemma_unseen_maker(s.drop_last(), m);
    }
}

/// Sums the weights of each manufacturer's weighed records, manufacturers in
/// order of first appearance.
pub fn weight_tallies(records: &Vec<Record>) -> (r: Vec<WeightTally>)
    ensures
        r@.len() == makers_seen(records@).len(),
        forall|j: int|
            0 <= j < r@.len() ==> {
                &&& (#[trigger] r@[j]).manufacturer@ == makers_seen(records@)[j]
                &&& r@[j].total_micros == weight_total(records@, makers_seen(records@)[j])
                &&& r@[j].count == weight_count(records@, makers_seen(records@)[j])
                &&& r@[j].count >= 1
            },
{
    let mut out: Vec<WeightTally> = Vec::new();
    let mut i: usize = 0;
    while i < records.len()
        invariant
            i <= records@.len(),
            out@.len() == makers_seen(records@.take(i as int)).len(),
            forall|j: int, l: int|
                0 <= j < l < out@.len() ==> makers_seen(records@.take(i as int))[j]
                    != makers_seen(records@.take(i as int))[l],
            forall|j: int|
                0 <= j < out@.len() ==> {
                    let m = makers_seen(records@.take(i as int))[j];
                    &&& (#[trigger] out@[j]).manufacturer@ == m
                    &&& out@[j].total_micros == weight_total(records@.take(i as int), m)
                    &&& out@[j].count == weight_count(records@.take(i as int), m)
                    &&& 1 <= out@[j].count <= i
                    &&& out@[j].total_micros <= i * 0xffff_ffff_ffff_ffffu64
                },
        decreases records@.len() - i,
    {
        let ghost prev = records@.take(i as int);
        let ghost next = records@.take(i + 1);
        assert(next.drop_last() =~= prev);
        let ghost ms = makers_seen(prev);
        let rec = &records[i];
        assert(next.last() == *rec);
        match rec.body_weight_grams {
            None => {
                assert(makers_seen(next) == ms);
                assert forall|j: int| 0 <= j < out@.len() implies {
                    let m = makers_seen(next)[j];
                    &&& (#[trigger] out@[j]).manufacturer@ == m
                    &&& out@[j].total_micros == weight_total(next, m)
                    &&& out@[j].count == weight_count(next, m)
                    &&& 1 <= out@[j].count <= i + 1
                    &&& out@[j].total_micros <= (i + 1) * 0xffff_ffff_ffff_ffffu64
                } by {
                    assert(i * 0xffff_ffff_ffff_ffffu64 <= (i + 1) * 0xffff_ffff_ffff_ffffu64)
                        by (nonlinear_arith);
                }
            },
            Some(w) => {
                let mut k: usize = 0;
                let mut found = false;
                while k < out.len() && !found
                    invariant
                        k <= out@.len(),
                        !found ==> forall|l: int| 0 <= l < k ==> out@[l].manufacturer@ != rec.manufacturer@,
                        found ==> k < out@.len() && out@[k as int].manufacturer@ == rec.manufacturer@,
                    decreases out@.len() - k + if found { 0int } else { 1int },
                {
                    if out[k].manufacturer == rec.manufacturer {
                        found = true;
                    } else {
                        k = k + 1;
                    }
                }
                let m = Ghost(rec.manufacturer@);
                if found {
                    assert(ms[k as int] == m@);
                    assert(ms.contains(m@));
                    assert(makers_seen(next) == ms);
                    let old_t = out[k].total_micros;
                    let old_c = out[k].count;
                    proof {
                        assert(old_t + w.micros <= (i + 1) * 0xffff_ffff_ffff_ffffu64)
                            by (nonlinear_arith)
                            requires
                                old_t <= i * 0xffff_ffff_ffff_ffffu64,
                                w.micros <= 0xffff_ffff_ffff_ffffu64,
                        ;
                        assert((i + 1) * 0xffff_ffff_ffff_ffffu64 <= 0xffff_ffff_ffff_ffff_ffff_ffff_ffff_ffffu128)
                            by (nonlinear_arith)
                            requires
                                i < 0x1_0000_0000_0000_0000int,
                        ;
                    }
                    let updated = WeightTally {
                        manufacturer: rec.manufacturer.clone(),
                        total_micros: old_t + w.micros as u128,
                        count: old_c + 1,
                    };
                    out.set(k, updated);
                    assert forall|j: int| 0 <= j < out@.len() implies {
                        let mj = makers_seen(next)[j];
                        &&& (#[trigger] out@[j]).manufacturer@ == mj
                        &&& out@[j].total_micros == weight_total(next, mj)
                        &&& out@[j].count == weight_count(next, mj)
                        &&& 1 <= out@[j].count <= i + 1
                        &&& out@[j].total_micros <= (i + 1) * 0xffff_ffff_ffff_ffffu64
                    } by {
                        if j != k {
                            assert(ms[j] != ms[k as int]);
                            assert(i * 0xffff_ffff_ffff_ffffu64 <= (i + 1) * 0xffff_ffff_ffff_ffffu64)
                                by (nonlinear_arith);
                        }
                    }
                } else {
                    assert forall|l: int| 0 <= l < ms.len() implies ms[l] != m@ by {
                        assert(out@[l].manufacturer@ == ms[l]);
                    }
                    assert(!ms.contains(m@));
                    proof {
                        lemma_unseen_maker(prev, m@);
                    }
                    assert(makers_seen(next) == ms.push(m@));
                    out.push(
                        WeightTally {
                            manufacturer: rec.manufacturer.clone(),
                            total_micros: w.micros as u128,
                            count: 1,
                        },
                    );
                    assert forall|j: int| 0 <= j < out@.len() implies {
                        let mj = makers_seen(next)[j];
                        &&& (#[trigger] out@[j]).manufacturer@ == mj
                        &&& out@[j].total_micros == weight_total(next, mj)
                        &&& out@[j].count == weight_count(next, mj)
                        &&& 1 <= out@[j].count <= i + 1
                        &&& out@[j].total_micros <= (i + 1) * 0xffff_ffff_ffff_ffffu64
                    } by {
                        if j < ms.len() {
                            assert(ms[j] != m@);
                            assert(i * 0xffff_ffff_ffff_ffffu64 <= (i + 1) * 0xffff_ffff_ffff_ffffu64)
                                by (nonlinear_arith);
                        } else {
                            assert(w.micros <= (i + 1) * 0xffff_ffff_ffff_ffffu64)
                                by (nonlinear_arith)
                                requires
                                    w.micros <= 0xffff_ffff_ffff_ffffu64,
                            ;
                        }
                    }
                }
            },
        }
        i = i + 1;
    }
    assert(records@.take(records@.len() as int) =~= records@);
    out
}

/// Comparing means through their quotients and remainders decides as the
/// cross products do.
proof fn lemma_compare_means(
    ta: int,
    ca: int,
    tb: int,
    cb: int,
    qa: int,
    ra: int,
    qb: int,
    rb: int,
)
    requires
        ca > 0,
        cb > 0,
        ta == qa * ca + ra,
        0 <= ra < ca,
        tb == qb * cb + rb,
        0 <= rb < cb,
    ensures
        mean_exceeds(ta, ca, tb, cb) == (qa > qb || (qa == qb && ra * cb > rb * ca)),
{
    let p = ca * cb;
    assert(ta * cb == qa * p + ra * cb) by (nonlinear_arith)
        requires
            ta == qa * ca + ra,
            p == ca * cb,
    ;
    assert(tb * ca == qb * p + rb * ca) by (nonlinear_arith)
        requires
            tb == qb * cb + rb,
            p == ca * cb,
    ;
    assert(0 <= ra * cb < p) by (nonlinear_arith)
        requires
            0 <= ra < ca,
            cb > 0,
            p == ca * cb,
    ;
    assert(0 <= rb * ca < p) by (nonlinear_arith)
        requires
            0 <= rb < cb,
            ca > 0,
            p == ca * cb,
    ;
    if qa > qb {
        assert(qa * p >= qb * p + p) by (nonlinear_arith)
            requires
                qa >= qb + 1,
                p > 0,
        ;
    } else if qa < qb {
        assert(qb * p >= qa * p + p) by (nonlinear_arith)
            requires
                qb >= qa + 1,
                p > 0,
        ;
    }
}

/// A mean that exceeds a second, which is no less than a third, exceeds the third.
proof fn lemma_exceeds_trans(ta: int, ca: int, tb: int, cb: int, tc: int, cc: int)
    requires
        ca > 0,
        cb > 0,
        cc > 0,
        mean_exceeds(ta, ca, tb, cb),
        !mean_exceeds(tc, cc, tb, cb),
    ensures
        mean_exceeds(ta, ca, tc, cc),
{
    assert(ta * cb * cc > tb * ca * cc) by (nonlinear_arith)
        requires
            ta * cb > tb * ca,
            cc > 0,
    ;
    assert(tc * cb * ca <= tb * cc * ca) by (nonlinear_arith)
        requires
            tc * cb <= tb * cc,
            ca > 0,
    ;
    assert(ta * cc * cb > tc * ca * cb) by (nonlinear_arith)
        requires
            ta * cb * cc > tb * ca * cc,
            tc * cb * ca <= tb * cc * ca,
    ;
    assert(ta * cc > tc * ca) by (nonlinear_arith)
        requires
            ta * cc * cb > tc * ca * cb,
            cb > 0,
    ;
}

/// Whether the mean `ta / ca` exceeds the mean `tb / cb`, decided exactly.
fn mean_exceeds_exec(ta: u128, ca: usize, tb: u128, cb: usize) -> (r: bool)
    requires
        ca >= 1,
        cb >= 1,
    ensures
        r == mean_exceeds(ta as int, ca as int, tb as int, cb as int),
{
    let cau = ca as u128;
    let cbu = cb as u128;
    let qa = ta / cau;
    let ra = ta % cau;
    let qb = tb / cbu;
    let rb = tb % cbu;
    proof {
        lemma_fundamental_div_mod(ta as int, ca as int);
        lemma_fundamental_div_mod(tb as int, cb as int);
        assert(qa * ca + ra == ca * qa + ra) by (nonlinear_arith);
        assert(qb * cb + rb == cb * qb + rb) by (nonlinear_arith);
        lemma_compare_means(
            ta as int,
            ca as int,
            tb as int,
            cb as int,
            qa as int,
            ra as int,
            qb as int,
            rb as int,
        );
        assert(ra * cbu < 0x1_0000_0000_0000_0000_0000_0000_0000_0000int) by (nonlinear_arith)
            requires
                ra < cau,
                cau < 0x1_0000_0000_0000_0000int,
                cbu < 0x1_0000_0000_0000_0000int,
        ;
        assert(rb * cau < 0x1_0000_0000_0000_0000_0000_0000_0000_0000int) by (nonlinear_arith)
            requires
                rb < cbu,
                cau < 0x1_0000_0000_0000_0000int,
                cbu < 0x1_0000_0000_0000_0000int,
        ;
    }
    if qa != qb {
        qa > qb
    } else {
        ra * cbu > rb * cau
    }
}

/// Finds the manufacturer whose weighed records have the greatest mean weight:
/// the first, in order of first appearance, to reach that maximum; none when
/// no weighed record has a positive weight.
pub fn find_heaviest_oem(records: &Vec<Record>) -> (r: Option<WeightTally>)
    ensures
        match r {
            Some(t) => exists|k: int|
                {
                    &&& is_heaviest_at(records@, k)
                    &&& #[trigger] makers_seen(records@)[k] == t.manufacturer@
                    &&& t.total_micros == weight_total(records@, t.manufacturer@)
                    &&& t.count == weight_count(records@, t.manufacturer@)
                },
            None => forall|j: int|
                0 <= j < makers_seen(records@).len() ==> weight_total(
                    records@,
                    #[trigger] makers_seen(records@)[j],
                ) == 0,
        },
{
    let tallies = weight_tallies(records);
    let ghost s = records@;
    let ghost ms = makers_seen(s);
    let mut best: Option<usize> = None;
    let mut j: usize = 0;
    while j < tallies.len()
        invariant
            j <= tallies@.len() == ms.len(),
            s == records@,
            ms == makers_seen(s),
            forall|l: int|
                0 <= l < tallies@.len() ==> {
                    &&& (#[trigger] tallies@[l]).manufacturer@ == ms[l]
                    &&& tallies@[l].total_micros == weight_total(s, ms[l])
                    &&& tallies@[l].count == weight_count(s, ms[l])
                    &&& tallies@[l].count >= 1
                },
            match best {
                None => forall|l: int| 0 <= l < j ==> weight_total(s, #[trigger] ms[l]) == 0,
                Some(b) => {
                    &&& b < j
                    &&& weight_total(s, ms[b as int]) > 0
                    &&& forall|l: int| 0 <= l < b ==> heavier(s, ms[b as int], #[trigger] ms[l])
                    &&& forall|l: int| b < l < j ==> !heavier(s, #[trigger] ms[l], ms[b as int])
                },
            },
        decreases tallies@.len() - j,
    {
        let tj = &tallies[j];
        assert(tallies@[j as int] == *tj);
        match best {
            None => {
                if tj.total_micros > 0 {
                    assert forall|l: int| 0 <= l < j implies heavier(s, ms[j as int], #[trigger] ms[l]) by {
                        let cj = tallies@[j as int].count as int;
                        let cl = tallies@[l].count as int;
                        let tt = tallies@[j as int].total_micros as int;
                        assert(tt * cl > 0 * cj) by (nonlinear_arith)
                            requires
                                tt > 0,
                                cl >= 1,
                        ;
                    }
                    best = Some(j);
                }
            },
            Some(b) => {
                let tb = &tallies[b];
                assert(tallies@[b as int] == *tb);
                if mean_exceeds_exec(tj.total_micros, tj.count, tb.total_micros, tb.count) {
                    proof {
                        let tt = tj.total_micros as int;
                        let ct = tj.count as int;
                        let bt = tb.total_micros as int;
                        let bc = tb.count as int;
                        assert(tt > 0) by (nonlinear_arith)
                            requires
                                tt * bc > bt * ct,
                                bt > 0,
                                ct > 0,
                                bc > 0,
                        ;
                        assert forall|l: int| 0 <= l < j implies heavier(s, ms[j as int], #[trigger] ms[l]) by {
                            let lt = tallies@[l].total_micros as int;
                            let lc = tallies@[l].count as int;
                            if l < b {
                                assert(mean_exceeds(bt, bc, lt, lc));
                                assert(!mean_exceeds(lt, lc, lt, lc));
                                lemma_exceeds_trans(bt, bc, lt, lc, lt, lc);
                                assert(lt * bc <= bt * lc);
                                lemma_exceeds_trans(tt, ct, bt, bc, lt, lc);
                            } else if l > b {
                                lemma_exceeds_trans(tt, ct, bt, bc, lt, lc);
                            }
                        }
                    }
                    best = Some(j);
                }
            },
        }
        j = j + 1;
    }
    match best {
        None => None,
        Some(b) => {
            let t = &tallies[b];
            proof {
                assert(is_heaviest_at(records@, b as int));
            }
            Some(
                WeightTally {
                    manufacturer: t.manufacturer.clone(),
                    total_micros: t.total_micros,
                    count: t.count,
                },
            )
        },
    }
}

/// The release year of a record whose status is a year.
pub open spec fn status_year(r: RecordView) -> Option<u32> {
    match r.release_status {
        Some(ReleaseStatus::Year(y)) => Some(y),
        _ => None,
    }
}

/// The release years of `s`, each once, in order of first appearance.
pub open spec fn years_seen(s: Seq<Record>) -> Seq<u32>
    decreases s.len(),
{
    if s.len() == 0 {
        Seq::empty()
    } else {
        let prev = years_seen(s.drop_last());
        match status_year(s.last()@) {
            Some(y) => if prev.contains(y) {
                prev
            } else {
                prev.push(y)
            },
            None => prev,
        }
    }
}

/// How many records of `s` were released in year `y`.
pub open spec fn year_count(s: Seq<Record>, y: u32) -> nat
    decreases s.len(),
{
    if s.len() == 0 {
        0
    } else {
        year_count(s.drop_last(), y) + if status_year(s.last()@) == Some(y) {
            1nat
        } else {
            0nat
        }
    }
}

/// The `k`-th year seen has the most releases, and is the first to reach that number.
pub open spec fn is_busiest_at(s: Seq<Record>, k: int) -> bool {
    let ys = years_seen(s);
    &&& 0 <= k < ys.len()
    &&& forall|j: int| 0 <= j < k ==> year_count(s, #[trigger] ys[j]) < year_count(s, ys[k])
    &&& forall|j: int| k < j < ys.len() ==> year_count(s, #[trigger] ys[j]) <= year_count(s, ys[k])
}

/// A release year and the number of records released in it.
#[derive(Clone, Copy, Debug, PartialEq, Eq, Structural)]
pub struct YearTally {
    pub year: u32,
    pub count: usize,
}

/// A year that is not among those seen has no release.
proof fn lemma_unseen_year(s: Seq<Record>, y: u32)
    requires
        !years_seen(s).contains(y),
    ensures
        year_count(s, y) == 0,
    decreases s.len(),
{
    if s.len() > 0 {
        let prev = years_seen(s.drop_last());
        if prev.contains(y) {
            let k = choose|k: int| 0 <= k < prev.len() && prev[k] == y;
            assert(years_seen(s)[k] == y);
        }
        if status_year(s.last()@) == Some(y) {
            assert(years_seen(s)[prev.len() as int] == y);
        }
        lemma_unseen_year(s.drop_last(), y);
    }
}

/// Counts the records released in each year, years in order of first appearance.
pub fn year_tallies(records: &Vec<Record>) -> (r: Vec<YearTally>)
    ensures
        r@.len() == years_seen(records@).len(),
        forall|j: int|
            0 <= j < r@.len() ==> {
                &&& (#[trigger] r@[j]).year == years_seen(records@)[j]
                &&& r@[j].count == year_count(records@, years_seen(records@)[j])
            },
{
    let mut out: Vec<YearTally> = Vec::new();
    let mut i: usize = 0;
    while i < records.len()
        invariant
            i <= records@.len(),
            out@.len() == years_seen(records@.take(i as int)).len(),
            forall|j: int, l: int|
                0 <= j < l < out@.len() ==> years_seen(records@.take(i as int))[j]
                    != years_seen(records@.take(i as int))[l],
            forall|j: int|
                0 <= j < out@.len() ==> {
                    let y = years_seen(records@.take(i as int))[j];
                    &&& (#[trigger] out@[j]).year == y
                    &&& out@[j].count == year_count(records@.take(i as int), y)
                    &&& out@[j].count <= i
                },
        decreases records@.len() - i,
    {
        let ghost prev = records@.take(i as int);
        let ghost next = records@.take(i + 1);
        assert(next.drop_last() =~= prev);
        let ghost ys = years_seen(prev);
        let rec = &records[i];
        assert(next.last() == *rec);
        match rec.release_status {
            Some(ReleaseStatus::Year(y)) => {
                let mut k: usize = 0;
                let mut found = false;
                while k < out.len() && !found
                    invariant
                        k <= out@.len(),
                        !found ==> forall|l: int| 0 <= l < k ==> out@[l].year != y,
                        found ==> k < out@.len() && out@[k as int].year == y,
                    decreases out@.len() - k + if found {
                        0int
                    } else {
                        1int
                    },
                {
                    if out[k].year == y {
                        found = true;
                    } else {
                        k = k + 1;
                    }
                }
                if found {
                    assert(ys[k as int] == y);
                    assert(ys.contains(y));
                    assert(years_seen(next) == ys);
                    let c = out[k].count;
                    out.set(k, YearTally { year: y, count: c + 1 });
                    assert forall|j: int| 0 <= j < out@.len() implies {
                        let yj = years_seen(next)[j];
                        &&& (#[trigger] out@[j]).year == yj
                        &&& out@[j].count == year_count(next, yj)
                        &&& out@[j].count <= i + 1
                    } by {
                        if j != k {
                            assert(ys[j] != ys[k as int]);
                        }
                    }
                } else {
                    assert forall|l: int| 0 <= l < ys.len() implies ys[l] != y by {
                        assert(out@[l].year == ys[l]);
                    }
                    assert(!ys.contains(y));
                    proof {
                        lemma_unseen_year(prev, y);
                    }
                    assert(years_seen(next) == ys.push(y));
                    out.push(YearTally { year: y, count: 1 });
                    assert forall|j: int| 0 <= j < out@.len() implies {
                        let yj = years_seen(next)[j];
                        &&& (#[trigger] out@[j]).year == yj
                        &&& out@[j].count == year_count(next, yj)
                        &&& out@[j].count <= i + 1
                    } by {
                        if j < ys.len() {
                            assert(ys[j] != y);
                        }
                    }
                }
            },
            _ => {
                assert(years_seen(next) == ys);
                assert forall|j: int| 0 <= j < out@.len() implies {
                    let yj = years_seen(next)[j];
                    &&& (#[trigger] out@[j]).year == yj
                    &&& out@[j].count == year_count(next, yj)
                    &&& out@[j].count <= i + 1
                } by {}
            },
        }
        i = i + 1;
    }
    assert(records@.take(records@.len() as int) =~= records@);
    out
}

/// Finds the release year with the most records: the first, in order of first
/// appearance, to reach that number; none when no record has a release year.
pub fn find_busiest_year(records: &Vec<Record>) -> (r: Option<YearTally>)
    ensures
        match r {
            Some(t) => exists|k: int|
                {
                    &&& is_busiest_at(records@, k)
                    &&& #[trigger] years_seen(records@)[k] == t.year
                    &&& t.count == year_count(records@, t.year)
                },
            None => years_seen(records@).len() == 0,
        },
{
    let tallies = year_tallies(records);
    let ghost s = records@;
    let ghost ys = years_seen(s);
    let mut best: Option<usize> = None;
    let mut j: usize = 0;
    while j < tallies.len()
        invariant
            j <= tallies@.len() == ys.len(),
            s == records@,
            ys == years_seen(s),
            forall|l: int|
                0 <= l < tallies@.len() ==> {
                    &&& (#[trigger] tallies@[l]).year == ys[l]
                    &&& tallies@[l].count == year_count(s, ys[l])
                },
            match best {
                None => j == 0,
                Some(b) => {
                    &&& b < j
                    &&& forall|l: int|
                        0 <= l < b ==> year_count(s, #[trigger] ys[l]) < year_count(
                            s,
                            ys[b as int],
                        )
                    &&& forall|l: int|
                        b < l < j ==> year_count(s, #[trigger] ys[l]) <= year_count(
                            s,
                            ys[b as int],
                        )
                },
            },
        decreases tallies@.len() - j,
    {
        assert(tallies@[j as int] == tallies[j as int]);
        match best {
            None => {
                best = Some(j);
            },
            Some(b) => {
                assert(tallies@[b as int] == tallies[b as int]);
                if tallies[j].count > tallies[b].count {
                    best = Some(j);
                }
            },
        }
        j = j + 1;
    }
    match best {
        None => None,
        Some(b) => {
            proof {
                assert(is_busiest_at(records@, b as int));
            }
            Some(tallies[b])
        },
    }
}

} // verus!
