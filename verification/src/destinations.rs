//! Travel destinations offered to a ship: every planet, moon, asteroid and
//! station, each name once, in a stable order.
use vstd::prelude::*;

verus! {

/// The category of a body in a star system.
#[derive(Clone, Copy, Debug, PartialEq, Eq, Structural)]
pub enum OrbitalKind {
    Star,
    Planet,
    Moon,
    Asteroid,
}

/// A place a ship can travel to, and where it is.
#[derive(Clone, Debug)]
pub struct Destination<P> {
    pub name: String,
    pub position: P,
}

/// The (name, position) of each body that is not a star, in order.
pub open spec fn body_candidates<P>(bodies: Seq<(String, OrbitalKind, P)>) -> Seq<(Seq<char>, P)>
    decreases bodies.len(),
{
    if bodies.len() == 0 {
        Seq::empty()
    } else {
        let prev = body_candidates(bodies.drop_last());
        let b = bodies.last();
        if b.1 == OrbitalKind::Star {
            prev
        } else {
            prev.push((b.0@, b.2))
        }
    }
}

/// The (name, position) of each station, in order.
pub open spec fn station_candidates<P>(stations: Seq<(String, P)>) -> Seq<(Seq<char>, P)> {
    stations.map_values(|s: (String, P)| (s.0@, s.1))
}

/// The names of a list of candidates.
pub open spec fn cand_names<P>(s: Seq<(Seq<char>, P)>) -> Seq<Seq<char>> {
    s.map_values(|c: (Seq<char>, P)| c.0)
}

/// The candidates whose name was not seen before, in order.
pub open spec fn first_of_each_name<P>(s: Seq<(Seq<char>, P)>) -> Seq<(Seq<char>, P)>
    decreases s.len(),
{
    if s.len() == 0 {
        s
    } else {
        let d = first_of_each_name(s.drop_last());
        if cand_names(d).contains(s.last().0) {
            d
        } else {
            d.push(s.last())
        }
    }
}

/// The destinations as (name, position) pairs.
pub open spec fn dest_pairs<P>(v: Seq<Destination<P>>) -> Seq<(Seq<char>, P)> {
    v.map_values(|d: Destination<P>| (d.name@, d.position))
}

/// Whether one of the destinations already has this name.
fn has_name<P>(out: &Vec<Destination<P>>, name: &String) -> (r: bool)
    ensures
        r == cand_names(dest_pairs(out@)).contains(name@),
{
    let mut i: usize = 0;
    while i < out.len()
        invariant
            i <= out@.len(),
            forall|k: int| 0 <= k < i ==> out@[k].name@ != name@,
        decreases out@.len() - i,
    {
        if out[i].name == *name {
            proof {
                assert(cand_names(dest_pairs(out@))[i as int] == name@);
            }
            return true;
        }
        i = i + 1;
    }
    proof {
        if cand_names(dest_pairs(out@)).contains(name@) {
            let k = choose|k: int| 0 <= k < cand_names(dest_pairs(out@)).len() && cand_names(dest_pairs(out@))[k] == name@;
            assert(out@[k].name@ == name@);
        }
    }
    false
}

/// Every destination a ship can pick: the bodies that are not stars, then
/// the stations, keeping only the first of any repeated name.
pub fn collect_destinations<P: Copy>(bodies: &[(String, OrbitalKind, P)], stations: &[(String, P)]) -> (v: Vec<Destination<P>>)
    ensures
        dest_pairs(v@) == first_of_each_name(body_candidates(bodies@) + station_candidates(stations@)),
{
    let mut out: Vec<Destination<P>> = Vec::new();
    let mut i: usize = 0;
    while i < bodies.len()
        invariant
            i <= bodies@.len(),
            dest_pairs(out@) == first_of_each_name(body_candidates(bodies@.take(i as int))),
        decreases bodies@.len() - i,
    {
        let ghost before = out@;
        proof {
            assert(bodies@.take(i + 1).drop_last() =~= bodies@.take(i as int));
        }
        if bodies[i].1 != OrbitalKind::Star {
            let ghost cands = body_candidates(bodies@.take(i as int));
            if !has_name(&out, &bodies[i].0) {
                out.push(Destination { name: bodies[i].0.clone(), position: bodies[i].2 });
                proof {
                    assert(dest_pairs(out@) =~= dest_pairs(before).push((bodies@[i as int].0@, bodies@[i as int].2)));
                }
            }
            proof {
                assert(body_candidates(bodies@.take(i + 1)) == cands.push((bodies@[i as int].0@, bodies@[i as int].2)));
                assert(cands.push((bodies@[i as int].0@, bodies@[i as int].2)).drop_last() =~= cands);
            }
        } else {
            proof {
                assert(body_candidates(bodies@.take(i + 1)) == body_candidates(bodies@.take(i as int)));
            }
        }
        i = i + 1;
    }
    proof {
        assert(bodies@.take(bodies@.len() as int) =~= bodies@);
        assert(body_candidates(bodies@) + station_candidates(stations@).take(0) =~= body_candidates(bodies@));
    }
    let ghost bc = body_candidates(bodies@);
    let mut j: usize = 0;
    while j < stations.len()
        invariant
            j <= stations@.len(),
            bc == body_candidates(bodies@),
            dest_pairs(out@) == first_of_each_name(bc + station_candidates(stations@).take(j as int)),
        decreases stations@.len() - j,
    {
        let ghost before = out@;
        let ghost prev = bc + station_candidates(stations@).take(j as int);
        let ghost next = bc + station_candidates(stations@).take(j + 1);
        proof {
            assert(next.drop_last() =~= prev);
            assert(next.last() == (stations@[j as int].0@, stations@[j as int].1));
        }
        if !has_name(&out, &stations[j].0) {
            out.push(Destination { name: stations[j].0.clone(), position: stations[j].1 });
            proof {
                assert(dest_pairs(out@) =~= dest_pairs(before).push((stations@[j as int].0@, stations@[j as int].1)));
            }
        }
        j = j + 1;
    }
    proof {
        assert(station_candidates(stations@).take(stations@.len() as int) =~= station_candidates(stations@));
    }
    out
}

} // verus!
