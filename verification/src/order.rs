//! Orderings of the listed documents: reviews newest first, sessions and
//! timeline entries oldest first, each by the text order of their RFC3339
//! timestamps. Each sort returns a permutation of its input.

use vstd::prelude::*;
use vstd::string::*;
use vstd::multiset::Multiset;
use vstd::seq_lib::group_to_multiset_ensures;

use crate::review::{Review, ReviewView};
use crate::session::{Session, SessionView};
use crate::timeline::{TimelineEntry, TimelineEntryView};
use crate::text::{lex_le, lemma_lex_refl, lemma_lex_total, lemma_lex_trans, str_le};

verus! {

pub open spec fn reviews_sorted_desc(rs: Seq<ReviewView>) -> bool {
    forall|i: int, j: int|
        0 <= i < j < rs.len() ==> lex_le((#[trigger] rs[j]).created_at, (#[trigger] rs[i]).created_at)
}

/// Sort reviews by creation time, newest first; the result is a
/// permutation of the input.
pub fn sort_reviews_desc(reviews: Vec<Review>) -> (r: Vec<Review>)
    ensures
        reviews_sorted_desc(r@.map_values(|x: Review| x@)),
        r@.map_values(|x: Review| x@).to_multiset() == reviews@.map_values(
            |x: Review| x@,
        ).to_multiset(),
{
    broadcast use group_to_multiset_ensures;

    let ghost input = reviews@.map_values(|x: Review| x@);
    let mut rest = reviews;
    let mut out: Vec<Review> = Vec::new();
    proof {
        assert(out@.map_values(|x: Review| x@).to_multiset().add(
            rest@.map_values(|x: Review| x@).to_multiset(),
        ) =~= input.to_multiset());
    }
    while rest.len() > 0
        invariant
            out@.map_values(|x: Review| x@).to_multiset().add(
                rest@.map_values(|x: Review| x@).to_multiset(),
            ) == input.to_multiset(),
            reviews_sorted_desc(out@.map_values(|x: Review| x@)),
            forall|i: int, q: int|
                0 <= i < out@.len() && 0 <= q < rest@.len() ==> lex_le(
                    (#[trigger] rest@[q])@.created_at,
                    (#[trigger] out@[i])@.created_at,
                ),
        decreases rest@.len(),
    {
        let ghost outv = out@.map_values(|x: Review| x@);
        let ghost restv = rest@.map_values(|x: Review| x@);

        // Find the newest remaining review.
        let mut best: usize = 0;
        let mut m: usize = 1;
        proof {
            lemma_lex_refl(restv[0].created_at);
        }
        while m < rest.len()
            invariant
                0 <= best < rest@.len(),
                1 <= m <= rest@.len(),
                restv == rest@.map_values(|x: Review| x@),
                forall|q: int|
                    0 <= q < m ==> lex_le(
                        (#[trigger] restv[q]).created_at,
                        restv[best as int].created_at,
                    ),
            decreases rest@.len() - m,
        {
            proof {
                assert(restv[m as int] == rest@[m as int]@);
                assert(restv[best as int] == rest@[best as int]@);
            }
            if !str_le(rest[m].created_at.as_str(), rest[best].created_at.as_str()) {
                proof {
                    lemma_lex_total(restv[m as int].created_at, restv[best as int].created_at);
                    assert forall|q: int| 0 <= q < m implies lex_le(
                        (#[trigger] restv[q]).created_at,
                        restv[m as int].created_at,
                    ) by {
                        lemma_lex_trans(
                            restv[q].created_at,
                            restv[best as int].created_at,
                            restv[m as int].created_at,
                        );
                    };
                    lemma_lex_refl(restv[m as int].created_at);
                }
                best = m;
            } else {
                proof {
                    lemma_lex_refl(restv[m as int].created_at);
                }
            }
            m += 1;
        }
        proof {
            assert(restv[best as int] == rest@[best as int]@);
            restv.to_multiset_ensures();
            outv.to_multiset_ensures();
        }
        let picked = rest.remove(best);
        let ghost pickedv = picked@;
        proof {
            assert(pickedv == restv[best as int]);
            assert(rest@.map_values(|x: Review| x@) =~= restv.remove(best as int));
            assert(restv.remove(best as int).to_multiset() =~= restv.to_multiset().remove(pickedv));
        }
        let ghost pre_out = out@;
        out.push(picked);
        proof {
            let outv2 = out@.map_values(|x: Review| x@);
            let restv2 = rest@.map_values(|x: Review| x@);
            assert(outv2 =~= outv.push(pickedv));
            assert(outv2.to_multiset() =~= outv.to_multiset().insert(pickedv));
            assert(restv.to_multiset().count(pickedv) >= 1) by {
                assert(restv.contains(pickedv));
            };
            assert(outv2.to_multiset().add(restv2.to_multiset()) =~= outv.to_multiset().add(
                restv.to_multiset(),
            ));
            // Every element left behind is no newer than the one picked.
            assert forall|q: int| 0 <= q < restv2.len() implies lex_le(
                (#[trigger] restv2[q]).created_at,
                pickedv.created_at,
            ) by {
                if q < best {
                    assert(restv2[q] == restv[q]);
                } else {
                    assert(restv2[q] == restv[q + 1]);
                }
            };
            assert forall|i: int, j: int| 0 <= i < j < outv2.len() implies lex_le(
                (#[trigger] outv2[j]).created_at,
                (#[trigger] outv2[i]).created_at,
            ) by {
                if j < outv2.len() - 1 {
                    assert(outv2[i] == outv[i] && outv2[j] == outv[j]);
                } else {
                    assert(outv2[j] == pickedv);
                    assert(outv2[i] == outv[i]);
                    assert(lex_le(pickedv.created_at, outv[i].created_at));
                }
            };
            assert forall|i: int, q: int|
                0 <= i < out@.len() && 0 <= q < rest@.len() implies lex_le(
                (#[trigger] rest@[q])@.created_at,
                (#[trigger] out@[i])@.created_at,
            ) by {
                assert(rest@[q]@ == restv2[q]);
                assert(out@[i]@ == outv2[i]);
                if i < outv2.len() - 1 {
                    assert(outv2[i] == outv[i]);
                    assert(lex_le(restv2[q].created_at, pickedv.created_at));
                    assert(lex_le(pickedv.created_at, outv[i].created_at));
                    lemma_lex_trans(restv2[q].created_at, pickedv.created_at, outv[i].created_at);
                } else {
                    assert(outv2[i] == pickedv);
                    assert(lex_le(restv2[q].created_at, pickedv.created_at));
                }
            };
        }
    }
    proof {
        assert(rest@.map_values(|x: Review| x@).to_multiset() =~= Multiset::<ReviewView>::empty());
        assert(out@.map_values(|x: Review| x@).to_multiset().add(Multiset::empty())
            =~= out@.map_values(|x: Review| x@).to_multiset());
    }
    out
}


pub open spec fn sessions_sorted_asc(rs: Seq<SessionView>) -> bool {
    forall|i: int, j: int|
        0 <= i < j < rs.len() ==> lex_le((#[trigger] rs[i]).created_at, (#[trigger] rs[j]).created_at)
}

/// Sort sessions by created_atsessions, oldest first; the result is a permutation of the
/// input.
pub fn sort_sessions_asc(input_vec: Vec<Session>) -> (r: Vec<Session>)
    ensures
        sessions_sorted_asc(r@.map_values(|x: Session| x@)),
        r@.map_values(|x: Session| x@).to_multiset() == input_vec@.map_values(
            |x: Session| x@,
        ).to_multiset(),
{
    broadcast use group_to_multiset_ensures;

    let ghost input = input_vec@.map_values(|x: Session| x@);
    let mut rest = input_vec;
    let mut out: Vec<Session> = Vec::new();
    proof {
        assert(out@.map_values(|x: Session| x@).to_multiset().add(
            rest@.map_values(|x: Session| x@).to_multiset(),
        ) =~= input.to_multiset());
    }
    while rest.len() > 0
        invariant
            out@.map_values(|x: Session| x@).to_multiset().add(
                rest@.map_values(|x: Session| x@).to_multiset(),
            ) == input.to_multiset(),
            sessions_sorted_asc(out@.map_values(|x: Session| x@)),
            forall|i: int, q: int|
                0 <= i < out@.len() && 0 <= q < rest@.len() ==> lex_le(
                    (#[trigger] out@[i])@.created_at,
                    (#[trigger] rest@[q])@.created_at,
                ),
        decreases rest@.len(),
    {
        let ghost outv = out@.map_values(|x: Session| x@);
        let ghost restv = rest@.map_values(|x: Session| x@);

        // Find the oldest remaining entry.
        let mut best: usize = 0;
        let mut m: usize = 1;
        proof {
            lemma_lex_refl(restv[0].created_at);
        }
        while m < rest.len()
            invariant
                0 <= best < rest@.len(),
                1 <= m <= rest@.len(),
                restv == rest@.map_values(|x: Session| x@),
                forall|q: int|
                    0 <= q < m ==> lex_le(
                        restv[best as int].created_at,
                        (#[trigger] restv[q]).created_at,
                    ),
            decreases rest@.len() - m,
        {
            proof {
                assert(restv[m as int] == rest@[m as int]@);
                assert(restv[best as int] == rest@[best as int]@);
            }
            if !str_le(rest[best].created_at.as_str(), rest[m].created_at.as_str()) {
                proof {
                    lemma_lex_total(restv[best as int].created_at, restv[m as int].created_at);
                    assert forall|q: int| 0 <= q < m implies lex_le(
                        restv[m as int].created_at,
                        (#[trigger] restv[q]).created_at,
                    ) by {
                        lemma_lex_trans(
                            restv[m as int].created_at,
                            restv[best as int].created_at,
                            restv[q].created_at,
                        );
                    };
                    lemma_lex_refl(restv[m as int].created_at);
                }
                best = m;
            } else {
                proof {
                    lemma_lex_refl(restv[m as int].created_at);
                }
            }
            m += 1;
        }
        proof {
            assert(restv[best as int] == rest@[best as int]@);
            restv.to_multiset_ensures();
            outv.to_multiset_ensures();
        }
        let picked = rest.remove(best);
        let ghost pickedv = picked@;
        proof {
            assert(pickedv == restv[best as int]);
            assert(rest@.map_values(|x: Session| x@) =~= restv.remove(best as int));
            assert(restv.remove(best as int).to_multiset() =~= restv.to_multiset().remove(pickedv));
        }
        out.push(picked);
        proof {
            let outv2 = out@.map_values(|x: Session| x@);
            let restv2 = rest@.map_values(|x: Session| x@);
            assert(outv2 =~= outv.push(pickedv));
            assert(outv2.to_multiset() =~= outv.to_multiset().insert(pickedv));
            assert(restv.to_multiset().count(pickedv) >= 1) by {
                assert(restv.contains(pickedv));
            };
            assert(outv2.to_multiset().add(restv2.to_multiset()) =~= outv.to_multiset().add(
                restv.to_multiset(),
            ));
            // The one picked is no newer than anything left behind.
            assert forall|q: int| 0 <= q < restv2.len() implies lex_le(
                pickedv.created_at,
                (#[trigger] restv2[q]).created_at,
            ) by {
                if q < best {
                    assert(restv2[q] == restv[q]);
                } else {
                    assert(restv2[q] == restv[q + 1]);
                }
            };
            assert forall|i: int, j: int| 0 <= i < j < outv2.len() implies lex_le(
                (#[trigger] outv2[i]).created_at,
                (#[trigger] outv2[j]).created_at,
            ) by {
                if j < outv2.len() - 1 {
                    assert(outv2[i] == outv[i] && outv2[j] == outv[j]);
                } else {
                    assert(outv2[j] == pickedv);
                    assert(outv2[i] == outv[i]);
                    assert(lex_le(outv[i].created_at, pickedv.created_at));
                }
            };
            assert forall|i: int, q: int|
                0 <= i < out@.len() && 0 <= q < rest@.len() implies lex_le(
                (#[trigger] out@[i])@.created_at,
                (#[trigger] rest@[q])@.created_at,
            ) by {
                assert(rest@[q]@ == restv2[q]);
                assert(out@[i]@ == outv2[i]);
                if i < outv2.len() - 1 {
                    assert(outv2[i] == outv[i]);
                    assert(lex_le(outv[i].created_at, pickedv.created_at));
                    assert(lex_le(pickedv.created_at, restv2[q].created_at));
                    lemma_lex_trans(outv[i].created_at, pickedv.created_at, restv2[q].created_at);
                } else {
                    assert(outv2[i] == pickedv);
                    assert(lex_le(pickedv.created_at, restv2[q].created_at));
                }
            };
        }
    }
    proof {
        assert(rest@.map_values(|x: Session| x@).to_multiset() =~= Multiset::<SessionView>::empty());
        assert(out@.map_values(|x: Session| x@).to_multiset().add(Multiset::empty())
            =~= out@.map_values(|x: Session| x@).to_multiset());
    }
    out
}

pub open spec fn timeline_sorted_asc(rs: Seq<TimelineEntryView>) -> bool {
    forall|i: int, j: int|
        0 <= i < j < rs.len() ==> lex_le((#[trigger] rs[i]).timestamp, (#[trigger] rs[j]).timestamp)
}

/// Sort timeline entries by timestamptimeline entries, oldest first; the result is a permutation of the
/// input.
pub fn sort_timeline_asc(input_vec: Vec<TimelineEntry>) -> (r: Vec<TimelineEntry>)
    ensures
        timeline_sorted_asc(r@.map_values(|x: TimelineEntry| x@)),
        r@.map_values(|x: TimelineEntry| x@).to_multiset() == input_vec@.map_values(
            |x: TimelineEntry| x@,
        ).to_multiset(),
{
    broadcast use group_to_multiset_ensures;

    let ghost input = input_vec@.map_values(|x: TimelineEntry| x@);
    let mut rest = input_vec;
    let mut out: Vec<TimelineEntry> = Vec::new();
    proof {
        assert(out@.map_values(|x: TimelineEntry| x@).to_multiset().add(
            rest@.map_values(|x: TimelineEntry| x@).to_multiset(),
        ) =~= input.to_multiset());
    }
    while rest.len() > 0
        invariant
            out@.map_values(|x: TimelineEntry| x@).to_multiset().add(
                rest@.map_values(|x: TimelineEntry| x@).to_multiset(),
            ) == input.to_multiset(),
            timeline_sorted_asc(out@.map_values(|x: TimelineEntry| x@)),
            forall|i: int, q: int|
                0 <= i < out@.len() && 0 <= q < rest@.len() ==> lex_le(
                    (#[trigger] out@[i])@.timestamp,
                    (#[trigger] rest@[q])@.timestamp,
                ),
        decreases rest@.len(),
    {
        let ghost outv = out@.map_values(|x: TimelineEntry| x@);
        let ghost restv = rest@.map_values(|x: TimelineEntry| x@);

        // Find the oldest remaining entry.
        let mut best: usize = 0;
        let mut m: usize = 1;
        proof {
            lemma_lex_refl(restv[0].timestamp);
        }
        while m < rest.len()
            invariant
                0 <= best < rest@.len(),
                1 <= m <= rest@.len(),
                restv == rest@.map_values(|x: TimelineEntry| x@),
                forall|q: int|
                    0 <= q < m ==> lex_le(
                        restv[best as int].timestamp,
                        (#[trigger] restv[q]).timestamp,
                    ),
            decreases rest@.len() - m,
        {
            proof {
                assert(restv[m as int] == rest@[m as int]@);
                assert(restv[best as int] == rest@[best as int]@);
            }
            if !str_le(rest[best].timestamp.as_str(), rest[m].timestamp.as_str()) {
                proof {
                    lemma_lex_total(restv[best as int].timestamp, restv[m as int].timestamp);
                    assert forall|q: int| 0 <= q < m implies lex_le(
                        restv[m as int].timestamp,
                        (#[trigger] restv[q]).timestamp,
                    ) by {
                        lemma_lex_trans(
                            restv[m as int].timestamp,
                            restv[best as int].timestamp,
                            restv[q].timestamp,
                        );
                    };
                    lemma_lex_refl(restv[m as int].timestamp);
                }
                best = m;
            } else {
                proof {
                    lemma_lex_refl(restv[m as int].timestamp);
                }
            }
            m += 1;
        }
        proof {
            assert(restv[best as int] == rest@[best as int]@);
            restv.to_multiset_ensures();
            outv.to_multiset_ensures();
        }
        let picked = rest.remove(best);
        let ghost pickedv = picked@;
        proof {
            assert(pickedv == restv[best as int]);
            assert(rest@.map_values(|x: TimelineEntry| x@) =~= restv.remove(best as int));
            assert(restv.remove(best as int).to_multiset() =~= restv.to_multiset().remove(pickedv));
        }
        out.push(picked);
        proof {
            let outv2 = out@.map_values(|x: TimelineEntry| x@);
            let restv2 = rest@.map_values(|x: TimelineEntry| x@);
            assert(outv2 =~= outv.push(pickedv));
            assert(outv2.to_multiset() =~= outv.to_multiset().insert(pickedv));
            assert(restv.to_multiset().count(pickedv) >= 1) by {
                assert(restv.contains(pickedv));
            };
            assert(outv2.to_multiset().add(restv2.to_multiset()) =~= outv.to_multiset().add(
                restv.to_multiset(),
            ));
            // The one picked is no newer than anything left behind.
            assert forall|q: int| 0 <= q < restv2.len() implies lex_le(
                pickedv.timestamp,
                (#[trigger] restv2[q]).timestamp,
            ) by {
                if q < best {
                    assert(restv2[q] == restv[q]);
                } else {
                    assert(restv2[q] == restv[q + 1]);
                }
            };
            assert forall|i: int, j: int| 0 <= i < j < outv2.len() implies lex_le(
                (#[trigger] outv2[i]).timestamp,
                (#[trigger] outv2[j]).timestamp,
            ) by {
                if j < outv2.len() - 1 {
                    assert(outv2[i] == outv[i] && outv2[j] == outv[j]);
                } else {
                    assert(outv2[j] == pickedv);
                    assert(outv2[i] == outv[i]);
                    assert(lex_le(outv[i].timestamp, pickedv.timestamp));
                }
            };
            assert forall|i: int, q: int|
                0 <= i < out@.len() && 0 <= q < rest@.len() implies lex_le(
                (#[trigger] out@[i])@.timestamp,
                (#[trigger] rest@[q])@.timestamp,
            ) by {
                assert(rest@[q]@ == restv2[q]);
                assert(out@[i]@ == outv2[i]);
                if i < outv2.len() - 1 {
                    assert(outv2[i] == outv[i]);
                    assert(lex_le(outv[i].timestamp, pickedv.timestamp));
                    assert(lex_le(pickedv.timestamp, restv2[q].timestamp));
                    lemma_lex_trans(outv[i].timestamp, pickedv.timestamp, restv2[q].timestamp);
                } else {
                    assert(outv2[i] == pickedv);
                    assert(lex_le(pickedv.timestamp, restv2[q].timestamp));
                }
            };
        }
    }
    proof {
        assert(rest@.map_values(|x: TimelineEntry| x@).to_multiset() =~= Multiset::<TimelineEntryView>::empty());
        assert(out@.map_values(|x: TimelineEntry| x@).to_multiset().add(Multiset::empty())
            =~= out@.map_values(|x: TimelineEntry| x@).to_multiset());
    }
    out
}
} // verus!
