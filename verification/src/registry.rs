//! The dataset registry: which (year, month) dataset files exist under
//! a base directory, and the canonical paths a period maps to.

use crate::numfmt::{append_dec_i32, append_dec_u128, dec_of, dec_of_i32};
use crate::trusted::{current_date, path_is_file};
use vstd::prelude::*;

verus! {

/// The canonical path of the primary file of a period:
/// `<base>/<year>/<month>.ron`.
pub open spec fn dataset_path(base: Seq<char>, year: i32, month: u32) -> Seq<char> {
    base + seq!['/'] + dec_of_i32(year) + seq!['/'] + dec_of(month as nat) + seq![
        '.',
        'r',
        'o',
        'n',
    ]
}

/// The canonical path of the co-located scratch file of a period:
/// the primary path with a `.tmp` suffix.
pub open spec fn dataset_tmp_path(base: Seq<char>, year: i32, month: u32) -> Seq<char> {
    dataset_path(base, year, month) + seq!['.', 't', 'm', 'p']
}

/// The name of the primary file for a period.
pub fn dataset_file_name(base_dir: &str, year: i32, month: u32) -> (r: String)
    ensures
        r@ == dataset_path(base_dir@, year, month),
{
    let mut out = String::new();
    proof {
        reveal_strlit("/");
        reveal_strlit(".ron");
    }
    out.append(base_dir);
    out.append("/");
    append_dec_i32(year, &mut out);
    out.append("/");
    append_dec_u128(month as u128, &mut out);
    out.append(".ron");
    proof {
        assert(out@ =~= dataset_path(base_dir@, year, month));
    }
    out
}

/// The name of the scratch file for a period.
pub fn dataset_tmp_name(base_dir: &str, year: i32, month: u32) -> (r: String)
    ensures
        r@ == dataset_tmp_path(base_dir@, year, month),
{
    let mut out = dataset_file_name(base_dir, year, month);
    proof {
        reveal_strlit(".tmp");
    }
    out.append(".tmp");
    proof {
        assert(out@ =~= dataset_tmp_path(base_dir@, year, month));
    }
    out
}

/// Whether the dataset file of the given period exists. The answer
/// depends on the file system at the moment of the call.
pub fn file_exists(base_dir: &str, year: i32, month: u32) -> bool {
    let name = dataset_file_name(base_dir, year, month);
    path_is_file(name.as_str())
}

/// The pair `(y, m)` occurs among the scanned present periods.
pub open spec fn present_has(p: Seq<(i32, u32)>, y: i32, m: u32) -> bool {
    exists|i: int| 0 <= i < p.len() && (#[trigger] p[i]).0 == y && p[i].1 == m
}

/// Taking one more scanned pair extends the present periods by exactly
/// that pair.
proof fn lemma_present_step(p: Seq<(i32, u32)>, i: int, y: i32, m: u32)
    requires
        0 <= i < p.len(),
    ensures
        present_has(p.take(i + 1), y, m) == (present_has(p.take(i), y, m) || (p[i].0 == y && p[
            i
        ].1 == m)),
{
    assert(p.take(i + 1).drop_last() =~= p.take(i));
    if present_has(p.take(i), y, m) {
        let k = choose|k: int|
            0 <= k < p.take(i).len() && (#[trigger] p.take(i)[k]).0 == y && p.take(i)[k].1 == m;
        assert(p.take(i + 1)[k].0 == y && p.take(i + 1)[k].1 == m);
    }
    if p[i].0 == y && p[i].1 == m {
        assert(p.take(i + 1)[i].0 == y && p.take(i + 1)[i].1 == m);
    }
    if present_has(p.take(i + 1), y, m) {
        let k = choose|k: int|
            0 <= k < p.take(i + 1).len() && (#[trigger] p.take(i + 1)[k]).0 == y && p.take(
                i + 1,
            )[k].1 == m;
        if k < i {
            assert(p.take(i)[k].0 == y && p.take(i)[k].1 == m);
        }
    }
}

/// The months recorded for one year.
pub struct YearEntry {
    pub year: i32,
    pub months: Vec<u32>,
}

impl View for YearEntry {
    type V = (i32, Seq<u32>);

    open spec fn view(&self) -> (i32, Seq<u32>) {
        (self.year, self.months@)
    }
}

/// The grouped listing as a sequence of (year, months) pairs.
pub open spec fn data_seq_view(data: Seq<YearEntry>) -> Seq<(i32, Seq<u32>)> {
    data.map_values(|e: YearEntry| e@)
}

/// A month `m` is recorded for year `y` in the grouped listing.
pub open spec fn listed(data: Seq<(i32, Seq<u32>)>, y: i32, m: u32) -> bool {
    exists|i: int, j: int|
        0 <= i < data.len() && 0 <= j < (#[trigger] data[i]).1.len() && data[i].0 == y && (
        #[trigger] data[i].1[j]) == m
}

/// The grouped listing and the derived flags agree with one scan of
/// present periods `p` made at today's period `(ty, tm)`.
pub open spec fn scan_consistent(
    r: AvailableDatasets,
    p: Seq<(i32, u32)>,
    ty: i32,
    tm: u32,
) -> bool {
    &&& 1 <= tm <= 12
    &&& forall|y: i32, m: u32| #[trigger] present_has(p, y, m) ==> 1970 <= y && 1 <= m <= 12
    &&& forall|y: i32, m: u32| #[trigger] listed(r.data_view(), y, m) == present_has(p, y, m)
    &&& r.can_create_now == !present_has(p, ty, tm)
    &&& r.can_create_next == if tm != 12 {
        !present_has(p, ty, (tm + 1) as u32)
    } else {
        !present_has(p, (ty + 1) as i32, 1)
    }
    &&& r.current_year == if present_has(p, ty, tm) {
        Some(ty)
    } else {
        None::<i32>
    }
    &&& r.current_month == if present_has(p, ty, tm) {
        Some(tm)
    } else {
        None::<u32>
    }
}

/// Which datasets exist on disk, and whether one can be created for the
/// current or the following period. The current year and month are
/// populated only when today's own period is among the datasets found.
pub struct AvailableDatasets {
    pub data: Vec<YearEntry>,
    pub current_year: Option<i32>,
    pub current_month: Option<u32>,
    pub can_create_now: bool,
    pub can_create_next: bool,
}

impl AvailableDatasets {
    pub open spec fn data_view(&self) -> Seq<(i32, Seq<u32>)> {
        data_seq_view(self.data@)
    }

    /// Group the scanned present periods and derive the current-period
    /// facts, for today's period `(ty, tm)`.
    pub fn from_scan(present: &Vec<(i32, u32)>, ty: i32, tm: u32) -> (r: Self)
        requires
            ty < i32::MAX,
            tm <= 12,
        ensures
            forall|y: i32, m: u32| #[trigger] listed(r.data_view(), y, m) == present_has(
                present@,
                y,
                m,
            ),
            r.can_create_now == !present_has(present@, ty, tm),
            r.can_create_next == if tm != 12 {
                !present_has(present@, ty, (tm + 1) as u32)
            } else {
                !present_has(present@, (ty + 1) as i32, 1)
            },
            r.current_year == if present_has(present@, ty, tm) {
                Some(ty)
            } else {
                None::<i32>
            },
            r.current_month == if present_has(present@, ty, tm) {
                Some(tm)
            } else {
                None::<u32>
            },
    {
        let mut data: Vec<YearEntry> = Vec::new();
        let n = present.len();
        for i in 0..n
            invariant
                n == present@.len(),
                forall|y: i32, m: u32| #[trigger] listed(data_seq_view(data@), y, m)
                    == present_has(present@.take(i as int), y, m),
        {
            let (y, m) = present[i];
            let ghost dv0 = data_seq_view(data@);
            proof {
                assert forall|yy: i32, mm: u32| true implies #[trigger] present_has(
                    present@.take(i + 1),
                    yy,
                    mm,
                ) == (present_has(present@.take(i as int), yy, mm) || (yy == y && mm == m)) by {
                    lemma_present_step(present@, i as int, yy, mm);
                }
            }
            // find the entry of year y, or add one
            let mut found = false;
            let nd = data.len();
            let mut di: usize = 0;
            for k in 0..nd
                invariant
                    nd == data@.len(),
                    found ==> di < data@.len() && data@[di as int].year == y,
                    !found ==> forall|l: int| 0 <= l < k ==> data@[l].year != y,
            {
                if data[k].year == y {
                    found = true;
                    di = k;
                }
            }
            if found {
                let ghost months0 = data@[di as int].months@;
                let mut e = data.remove(di);
                e.months.push(m);
                data.insert(di, e);
                proof {
                    let dv1 = data_seq_view(data@);
                    assert(dv1 =~= dv0.update(di as int, (y, months0.push(m))));
                    assert forall|yy: i32, mm: u32| #[trigger] listed(dv1, yy, mm) implies (
                    listed(dv0, yy, mm) || (yy == y && mm == m)) by {
                        let (a, b): (int, int) = choose|a: int, b: int|
                            0 <= a < dv1.len() && 0 <= b < (#[trigger] dv1[a]).1.len() && dv1[
                                a
                            ].0 == yy && (#[trigger] dv1[a].1[b]) == mm;
                        if a == di {
                            if b < months0.len() {
                                assert(dv0[a].0 == yy && dv0[a].1[b] == mm);
                            }
                        } else {
                            assert(dv0[a].0 == yy && dv0[a].1[b] == mm);
                        }
                    }
                    assert forall|yy: i32, mm: u32| (listed(dv0, yy, mm) || (yy == y && mm
                        == m)) implies #[trigger] listed(dv1, yy, mm) by {
                        if listed(dv0, yy, mm) {
                            let (a, b): (int, int) = choose|a: int, b: int|
                                0 <= a < dv0.len() && 0 <= b < (#[trigger] dv0[a]).1.len() && dv0[
                                    a
                                ].0 == yy && (#[trigger] dv0[a].1[b]) == mm;
                            assert(dv1[a].0 == yy && dv1[a].1[b] == mm);
                        } else {
                            assert(dv1[di as int].0 == yy);
                            assert(dv1[di as int].1[months0.len() as int] == mm);
                        }
                    }
                }
            } else {
                let mut months: Vec<u32> = Vec::new();
                months.push(m);
                data.push(YearEntry { year: y, months });
                proof {
                    let dv1 = data_seq_view(data@);
                    assert(dv1 =~= dv0.push((y, seq![m])));
                    assert forall|yy: i32, mm: u32| #[trigger] listed(dv1, yy, mm) implies (
                    listed(dv0, yy, mm) || (yy == y && mm == m)) by {
                        let (a, b): (int, int) = choose|a: int, b: int|
                            0 <= a < dv1.len() && 0 <= b < (#[trigger] dv1[a]).1.len() && dv1[
                                a
                            ].0 == yy && (#[trigger] dv1[a].1[b]) == mm;
                        if a < dv0.len() {
                            assert(dv0[a].0 == yy && dv0[a].1[b] == mm);
                        }
                    }
                    assert forall|yy: i32, mm: u32| (listed(dv0, yy, mm) || (yy == y && mm
                        == m)) implies #[trigger] listed(dv1, yy, mm) by {
                        if listed(dv0, yy, mm) {
                            let (a, b): (int, int) = choose|a: int, b: int|
                                0 <= a < dv0.len() && 0 <= b < (#[trigger] dv0[a]).1.len() && dv0[
                                    a
                                ].0 == yy && (#[trigger] dv0[a].1[b]) == mm;
                            assert(dv1[a].0 == yy && dv1[a].1[b] == mm);
                        } else {
                            assert(dv1[dv0.len() as int].0 == yy);
                            assert(dv1[dv0.len() as int].1[0] == mm);
                        }
                    }
                }
            }
        }
        proof {
            assert(present@.take(n as int) =~= present@);
        }
        let np = present.len();
        let mut now_present = false;
        let mut next_present = false;
        let (ny, nm): (i32, u32) = if tm != 12 {
            (ty, tm + 1)
        } else {
            (ty + 1, 1)
        };
        for i in 0..np
            invariant
                np == present@.len(),
                now_present == present_has(present@.take(i as int), ty, tm),
                next_present == present_has(present@.take(i as int), ny, nm),
        {
            let (y, m) = present[i];
            proof {
                lemma_present_step(present@, i as int, ty, tm);
                lemma_present_step(present@, i as int, ny, nm);
            }
            if y == ty && m == tm {
                now_present = true;
            }
            if y == ny && m == nm {
                next_present = true;
            }
        }
        proof {
            assert(present@.take(np as int) =~= present@);
        }
        let current_year: Option<i32> = if now_present {
            Some(ty)
        } else {
            None
        };
        let current_month: Option<u32> = if now_present {
            Some(tm)
        } else {
            None
        };
        AvailableDatasets {
            data,
            current_year,
            current_month,
            can_create_now: !now_present,
            can_create_next: !next_present,
        }
    }

    /// Scan the base directory for dataset files from January 1970
    /// through the month after the current one (probing January of the
    /// following year when the current month is December), and group
    /// what was found.
    pub fn from_base_dir(base_dir: &str) -> (r: Self)
        ensures
            forall|y: i32, m: u32| #[trigger] listed(r.data_view(), y, m) ==> 1970 <= y && 1 <= m
                <= 12,
            exists|p: Seq<(i32, u32)>, ty: i32, tm: u32| #[trigger] scan_consistent(r, p, ty, tm),
    {
        let (ty, tm) = current_date();
        let mut present: Vec<(i32, u32)> = Vec::new();
        if ty >= 1970 {
            let mut y: i32 = 1970;
            while y <= ty
                invariant
                    1970 <= y <= ty + 1,
                    ty <= 262142,
                    1 <= tm <= 12,
                    forall|k: int| 0 <= k < present@.len() ==> 1970 <= (
                    #[trigger] present@[k]).0 && 1 <= present@[k].1 <= 12,
                decreases ty + 1 - y,
            {
                let until = if y == ty {
                    if tm == 12 {
                        12
                    } else {
                        tm + 1
                    }
                } else {
                    12
                };
                let mut m: u32 = 1;
                while m <= until
                    invariant
                        1 <= m <= until + 1,
                        until <= 12,
                        1970 <= y,
                        forall|k: int| 0 <= k < present@.len() ==> 1970 <= (
                        #[trigger] present@[k]).0 && 1 <= present@[k].1 <= 12,
                    decreases until + 1 - m,
                {
                    if file_exists(base_dir, y, m) {
                        present.push((y, m));
                    }
                    m = m + 1;
                }
                y = y + 1;
            }
        }
        // probe January of the following year when December is current
        if tm == 12 && ty >= 1970 {
            if file_exists(base_dir, ty + 1, 1) {
                present.push((ty + 1, 1));
            }
        }
        let r = Self::from_scan(&present, ty, tm);
        proof {
            assert forall|y: i32, m: u32| #[trigger] present_has(present@, y, m) implies 1970
                <= y && 1 <= m <= 12 by {
                let k = choose|k: int|
                    0 <= k < present@.len() && (#[trigger] present@[k]).0 == y && present@[k].1
                        == m;
            }
            assert(scan_consistent(r, present@, ty, tm));
        }
        r
    }
}

} // verus!
