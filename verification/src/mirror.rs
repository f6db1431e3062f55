//! Mirror selection: given measured mirrors, pick the fastest available
//! one. Probing the mirrors is outside work; the caller fills in each
//! mirror's measured latency and availability.

use vstd::prelude::*;

use crate::text::{clone_strings, str_equal};

verus! {

/// One mirror, with its last measurement.
#[derive(Debug)]
pub struct Mirror {
    pub url: String,
    pub name: String,
    pub country: String,
    /// Measured latency in milliseconds, if the mirror answered.
    pub speed: Option<u64>,
    /// When it was last probed, in seconds since the epoch.
    pub last_check: Option<u64>,
    pub is_available: bool,
}

/// Mathematical image of a `Mirror`.
pub ghost struct MirrorV {
    pub url: Seq<char>,
    pub name: Seq<char>,
    pub country: Seq<char>,
    pub speed: Option<u64>,
    pub last_check: Option<u64>,
    pub is_available: bool,
}

impl View for Mirror {
    type V = MirrorV;

    open spec fn view(&self) -> MirrorV {
        MirrorV {
            url: self.url@,
            name: self.name@,
            country: self.country@,
            speed: self.speed,
            last_check: self.last_check,
            is_available: self.is_available,
        }
    }
}

impl DeepView for Mirror {
    type V = MirrorV;

    open spec fn deep_view(&self) -> MirrorV {
        self@
    }
}

impl Clone for Mirror {
    /// A clone carries every field over unchanged.
    fn clone(&self) -> (r: Self)
        ensures
            r@ == self@,
    {
        Mirror {
            url: self.url.clone(),
            name: self.name.clone(),
            country: self.country.clone(),
            speed: self.speed,
            last_check: self.last_check,
            is_available: self.is_available,
        }
    }
}

/// A name/availability pair of the status report.
#[derive(Debug)]
pub struct MirrorStatus {
    pub name: String,
    pub is_available: bool,
}

impl View for MirrorStatus {
    type V = (Seq<char>, bool);

    open spec fn view(&self) -> (Seq<char>, bool) {
        (self.name@, self.is_available)
    }
}

impl DeepView for MirrorStatus {
    type V = (Seq<char>, bool);

    open spec fn deep_view(&self) -> (Seq<char>, bool) {
        self@
    }
}

/// The latency bound a mirror must beat to be selected at all, in
/// milliseconds.
pub const SPEED_CUTOFF_MS: u64 = 60000;

/// Whether the mirror is available with a measured latency strictly
/// below `bound`.
pub open spec fn spec_mirror_beats(m: MirrorV, bound: u64) -> bool {
    m.is_available && (match m.speed {
        None => false,
        Some(s) => s < bound,
    })
}

/// Index of the fastest qualifying mirror among the first `k`: measured,
/// available, faster than the cutoff; the earliest wins a tie.
pub open spec fn spec_fastest_upto(mirrors: Seq<MirrorV>, k: int) -> Option<int>
    decreases k,
{
    if k <= 0 {
        None
    } else {
        let prev = spec_fastest_upto(mirrors, k - 1);
        let bound = match prev {
            None => SPEED_CUTOFF_MS,
            Some(j) => mirrors[j].speed->0,
        };
        if spec_mirror_beats(mirrors[k - 1], bound) {
            Some(k - 1)
        } else {
            prev
        }
    }
}

pub proof fn lemma_fastest_upto(mirrors: Seq<MirrorV>, k: int)
    requires
        k <= mirrors.len(),
    ensures
        match spec_fastest_upto(mirrors, k) {
            None => true,
            Some(j) => 0 <= j < k && mirrors[j].is_available && mirrors[j].speed is Some,
        },
    decreases k,
{
    if k > 0 {
        lemma_fastest_upto(mirrors, k - 1);
    }
}

/// Mirror selection over measured mirrors.
#[derive(Debug)]
pub struct MirrorSelector {
    /// Probe timeout, in milliseconds.
    pub timeout_ms: u64,
}

impl MirrorSelector {
    /// A selector with the default five-second probe timeout.
    pub fn new() -> (r: Self)
        ensures
            r.timeout_ms == 5000,
    {
        MirrorSelector { timeout_ms: 5000 }
    }

    /// The fastest available mirror measured under a minute, if any.
    pub fn select_fastest_mirror(&self, mirrors: &Vec<Mirror>) -> (r: Option<Mirror>)
        ensures
            match spec_fastest_upto(mirrors.deep_view(), mirrors.deep_view().len() as int) {
                None => r is None,
                Some(j) => r matches Some(m) && m@ == mirrors.deep_view()[j],
            },
    {
        let ghost mv = mirrors.deep_view();
        let mut best: Option<usize> = None;
        let mut i: usize = 0;
        proof {
            assert(mv.len() == mirrors.len());
        }
        while i < mirrors.len()
            invariant
                0 <= i <= mirrors.len(),
                mv == mirrors.deep_view(),
                mv.len() == mirrors.len(),
                match best {
                    None => spec_fastest_upto(mv, i as int) is None,
                    Some(j) => j < i && spec_fastest_upto(mv, i as int) == Some(j as int),
                },
            decreases mirrors.len() - i,
        {
            proof {
                assert(mv[i as int] == mirrors[i as int]@);
                lemma_fastest_upto(mv, i as int);
            }
            let bound = match best {
                None => SPEED_CUTOFF_MS,
                Some(j) => {
                    proof {
                        assert(mv[j as int] == mirrors[j as int]@);
                    }
                    match mirrors[j].speed {
                        Some(s) => s,
                        None => {
                            proof {
                                assert(false);
                            }
                            0
                        },
                    }
                },
            };
            let beats = mirrors[i].is_available && (match mirrors[i].speed {
                None => false,
                Some(s) => s < bound,
            });
            if beats {
                best = Some(i);
            }
            i = i + 1;
        }
        match best {
            None => None,
            Some(j) => {
                proof {
                    lemma_fastest_upto(mv, mv.len() as int);
                    assert(mv[j as int] == mirrors[j as int]@);
                }
                Some(mirrors[j].clone())
            },
        }
    }

    /// The available mirrors of the given country, compared without
    /// regard to ASCII case, in order.
    pub fn get_mirrors_by_country(&self, mirrors: &Vec<Mirror>, country: &str) -> (r: Vec<Mirror>)
        ensures
            r.deep_view() == mirrors.deep_view().filter(
                |m: MirrorV| spec_ascii_eq_ignore_case(m.country, country@) && m.is_available,
            ),
    {
        let ghost pred = |m: MirrorV| spec_ascii_eq_ignore_case(m.country, country@)
            && m.is_available;
        let ghost mv = mirrors.deep_view();
        let mut acc: Vec<Mirror> = Vec::new();
        let mut i: usize = 0;
        proof {
            assert(mv.len() == mirrors.len());
            assert(acc.deep_view() =~= mv.take(0).filter(pred));
        }
        while i < mirrors.len()
            invariant
                0 <= i <= mirrors.len(),
                mv == mirrors.deep_view(),
                mv.len() == mirrors.len(),
                pred == (|m: MirrorV| spec_ascii_eq_ignore_case(m.country, country@)
                    && m.is_available),
                acc.deep_view() == mv.take(i as int).filter(pred),
            decreases mirrors.len() - i,
        {
            proof {
                assert(mv[i as int] == mirrors[i as int]@);
                assert(mv.take(i + 1) =~= mv.take(i as int) + seq![mv[i as int]]);
                Seq::filter_distributes_over_add(mv.take(i as int), seq![mv[i as int]], pred);
                reveal_with_fuel(Seq::filter, 2);
                assert(seq![mv[i as int]].drop_last() =~= Seq::<MirrorV>::empty());
            }
            if mirrors[i].is_available && ascii_eq_ignore_case(
                mirrors[i].country.as_str(),
                country,
            ) {
                let ghost pre = acc.deep_view();
                acc.push(mirrors[i].clone());
                proof {
                    assert(acc.deep_view() =~= pre.push(mv[i as int]));
                }
            }
            i = i + 1;
        }
        proof {
            assert(mv.take(mv.len() as int) =~= mv);
        }
        acc
    }

    /// Each mirror's name with its availability, in order.
    pub fn get_mirror_status(&self, mirrors: &Vec<Mirror>) -> (r: Vec<MirrorStatus>)
        ensures
            r.deep_view() == mirrors.deep_view().map_values(
                |m: MirrorV| (m.name, m.is_available),
            ),
    {
        let ghost mv = mirrors.deep_view();
        let ghost goal = mv.map_values(|m: MirrorV| (m.name, m.is_available));
        let mut acc: Vec<MirrorStatus> = Vec::new();
        let mut i: usize = 0;
        proof {
            assert(mv.len() == mirrors.len());
            assert(acc.deep_view() =~= goal.take(0));
        }
        while i < mirrors.len()
            invariant
                0 <= i <= mirrors.len(),
                mv == mirrors.deep_view(),
                mv.len() == mirrors.len(),
                goal == mv.map_values(|m: MirrorV| (m.name, m.is_available)),
                acc.deep_view() =~= goal.take(i as int),
            decreases mirrors.len() - i,
        {
            proof {
                assert(mv[i as int] == mirrors[i as int]@);
            }
            let ghost pre = acc.deep_view();
            acc.push(
                MirrorStatus {
                    name: mirrors[i].name.clone(),
                    is_available: mirrors[i].is_available,
                },
            );
            proof {
                assert(acc.deep_view() =~= pre.push(goal[i as int]));
                assert(acc.deep_view() =~= goal.take(i + 1));
            }
            i = i + 1;
        }
        proof {
            assert(goal.take(goal.len() as int) =~= goal);
        }
        acc
    }
}

/// The character with an ASCII upper-case letter folded to lower case.
pub open spec fn spec_ascii_lower(c: char) -> char {
    if 'A' <= c && c <= 'Z' {
        ((c as u8) + 32) as char
    } else {
        c
    }
}

/// Whether the strings are equal once ASCII letters are folded to lower
/// case.
pub open spec fn spec_ascii_eq_ignore_case(a: Seq<char>, b: Seq<char>) -> bool {
    a.len() == b.len() && (forall|i: int|
        0 <= i < a.len() ==> spec_ascii_lower(#[trigger] a[i]) == spec_ascii_lower(b[i]))
}

fn ascii_lower(c: char) -> (r: char)
    ensures
        r == spec_ascii_lower(c),
{
    if 'A' <= c && c <= 'Z' {
        ((c as u8) + 32) as char
    } else {
        c
    }
}

/// Whether the strings are equal without regard to ASCII case.
pub fn ascii_eq_ignore_case(a: &str, b: &str) -> (r: bool)
    ensures
        r == spec_ascii_eq_ignore_case(a@, b@),
{
    let n = a.unicode_len();
    if n != b.unicode_len() {
        return false;
    }
    let mut i: usize = 0;
    while i < n
        invariant
            0 <= i <= n,
            n == a@.len(),
            n == b@.len(),
            forall|j: int| 0 <= j < i ==> spec_ascii_lower(#[trigger] a@[j]) == spec_ascii_lower(
                b@[j],
            ),
        decreases n - i,
    {
        if ascii_lower(a.get_char(i)) != ascii_lower(b.get_char(i)) {
            return false;
        }
        i = i + 1;
    }
    true
}

} // verus!
