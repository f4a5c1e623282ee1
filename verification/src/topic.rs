//! Broker topic matching with `+` and `#` wildcards.

use crate::strutil::string_to_chars;
use vstd::prelude::*;

verus! {

/// Splitting a character sequence on `/`, as the broker does with topic
/// names: splitting the empty sequence gives one empty segment.
pub open spec fn spec_split_slash(s: Seq<char>) -> Seq<Seq<char>>
    decreases s.len(),
{
    if s.len() == 0 {
        seq![Seq::<char>::empty()]
    } else if s.last() == '/' {
        spec_split_slash(s.drop_last()).push(Seq::<char>::empty())
    } else {
        let r = spec_split_slash(s.drop_last());
        r.drop_last().push(r.last().push(s.last()))
    }
}

pub proof fn lemma_split_slash_len(s: Seq<char>)
    ensures
        spec_split_slash(s).len() >= 1,
    decreases s.len(),
{
    if s.len() > 0 {
        lemma_split_slash_len(s.drop_last());
    }
}

/// Split a topic or pattern string into its `/`-separated segments.
pub fn split_segments(s: &str) -> (r: Vec<Vec<char>>)
    ensures
        r.deep_view() == spec_split_slash(s@),
{
    let chars = string_to_chars(s);
    let mut segs: Vec<Vec<char>> = Vec::new();
    let mut cur: Vec<char> = Vec::new();
    let mut i: usize = 0;
    proof {
        assert(segs.deep_view().push(cur@) =~~= spec_split_slash(s@.take(0)));
    }
    while i < chars.len()
        invariant
            chars@ == s@,
            i <= chars@.len(),
            segs.deep_view().push(cur@) == spec_split_slash(s@.take(i as int)),
        decreases chars@.len() - i,
    {
        let ghost pre = s@.take(i as int);
        proof {
            assert(s@.take(i + 1 as int).drop_last() =~= pre);
            assert(s@.take(i + 1 as int).last() == s@[i as int]);
            lemma_split_slash_len(pre);
        }
        if chars[i] == '/' {
            segs.push(cur);
            cur = Vec::new();
            proof {
                assert(segs.deep_view().push(cur@) =~~= spec_split_slash(s@.take(i + 1 as int)));
            }
        } else {
            cur.push(chars[i]);
            proof {
                assert(segs.deep_view().push(cur@) =~~= spec_split_slash(s@.take(i + 1 as int)));
            }
        }
        i = i + 1;
    }
    proof {
        assert(s@.take(chars@.len() as int) =~= s@);
    }
    segs.push(cur);
    proof {
        assert(segs.deep_view() =~~= spec_split_slash(s@));
    }
    segs
}

/// One pattern segment set against one topic segment: a literal segment
/// must be equal, `+` takes any single segment.
pub open spec fn seg_matches(p: Seq<char>, t: Seq<char>) -> bool {
    p == seq!['+'] || p == t
}

/// Segment-wise matching, as the broker defines it: `#` takes all
/// remaining segments (including none), `+` takes exactly one.
pub open spec fn spec_topic_match(p: Seq<Seq<char>>, t: Seq<Seq<char>>) -> bool
    decreases p.len(),
{
    if p.len() == 0 {
        t.len() == 0
    } else if p.first() == seq!['#'] {
        true
    } else if t.len() == 0 {
        false
    } else {
        seg_matches(p.first(), t.first()) && spec_topic_match(p.drop_first(), t.drop_first())
    }
}

/// The positional description of wildcard matching: with a trailing `#`
/// the topic needs at least the pattern's other segments, matched one by
/// one; without it the topic has exactly as many segments as the pattern,
/// matched one by one.
pub open spec fn wildcard_characterization(p: Seq<Seq<char>>, t: Seq<Seq<char>>) -> bool {
    if p.len() > 0 && p.last() == seq!['#'] {
        t.len() >= p.len() - 1 && (forall|i: int| 0 <= i < p.len() - 1 ==> seg_matches(p[i], t[i]))
    } else {
        t.len() == p.len() && (forall|i: int| 0 <= i < p.len() ==> seg_matches(p[i], t[i]))
    }
}

/// Law: for a pattern whose `#`, if any, stands only in the trailing
/// position, matching holds exactly when the pattern's non-wildcard
/// segments equal the topic's segments positionally, each `+` takes one
/// segment, and a trailing `#` takes the zero or more segments left.
pub proof fn lemma_topic_match_characterization(p: Seq<Seq<char>>, t: Seq<Seq<char>>)
    requires
        forall|i: int| 0 <= i < p.len() - 1 ==> p[i] != seq!['#'],
    ensures
        spec_topic_match(p, t) <==> wildcard_characterization(p, t),
    decreases p.len(),
{
    if p.len() == 0 {
    } else if p.first() == seq!['#'] {
        assert(p.len() == 1) by {
            if p.len() > 1 {
                assert(p[0] != seq!['#']);
            }
        }
        assert(p.last() == seq!['#']);
    } else if t.len() == 0 {
        if p.len() > 0 && p.last() == seq!['#'] {
            if p.len() == 1 {
                assert(p.first() == p.last());
            }
            assert(p.len() >= 2);
            assert(!wildcard_characterization(p, t));
        }
    } else {
        let p2 = p.drop_first();
        let t2 = t.drop_first();
        assert(forall|i: int| 0 <= i < p2.len() - 1 ==> p2[i] == p[i + 1] && p2[i] != seq!['#']);
        lemma_topic_match_characterization(p2, t2);
        if p.len() > 0 && p.last() == seq!['#'] {
            if p.len() == 1 {
                assert(p.first() == p.last());
            }
            assert(p.len() >= 2);
            assert(p2.len() > 0 && p2.last() == p.last());
            if seg_matches(p.first(), t.first()) && wildcard_characterization(p2, t2) {
                assert forall|i: int| 0 <= i < p.len() - 1 implies seg_matches(p[i], t[i]) by {
                    if i > 0 {
                        assert(seg_matches(p2[i - 1], t2[i - 1]));
                        assert(p2[i - 1] == p[i] && t2[i - 1] == t[i]);
                    }
                }
            }
            if wildcard_characterization(p, t) {
                assert(seg_matches(p[0], t[0]));
                assert forall|i: int| 0 <= i < p2.len() - 1 implies seg_matches(p2[i], t2[i]) by {
                    assert(seg_matches(p[i + 1], t[i + 1]));
                }
            }
        } else {
            assert(!(p2.len() > 0 && p2.last() == seq!['#'])) by {
                if p2.len() > 0 {
                    assert(p2.last() == p.last());
                }
            }
            if seg_matches(p.first(), t.first()) && wildcard_characterization(p2, t2) {
                assert forall|i: int| 0 <= i < p.len() implies seg_matches(p[i], t[i]) by {
                    if i > 0 {
                        assert(seg_matches(p2[i - 1], t2[i - 1]));
                        assert(p2[i - 1] == p[i] && t2[i - 1] == t[i]);
                    }
                }
            }
            if wildcard_characterization(p, t) {
                assert(seg_matches(p[0], t[0]));
                assert forall|i: int| 0 <= i < p2.len() implies seg_matches(p2[i], t2[i]) by {
                    assert(seg_matches(p[i + 1], t[i + 1]));
                }
            }
        }
    }
}

/// Whether a segment vector is exactly one given wildcard character.
fn is_wildcard(seg: &Vec<char>, w: char) -> (r: bool)
    ensures
        r == (seg@ == seq![w]),
{
    if seg.len() == 1 && seg[0] == w {
        proof {
            assert(seg@ =~= seq![w]);
        }
        true
    } else {
        proof {
            if seg@.len() == 1 && seg@ =~= seq![w] {
                assert(seg@[0] == w);
            }
        }
        false
    }
}

/// Whether a topic matches a subscription pattern.
///
/// Matching is segment-wise from the left: a literal pattern segment must
/// equal the topic segment, `+` takes exactly one segment, and `#` takes
/// all remaining segments, including none, so `a/#` matches `a`.
pub fn topic_matches(pattern: &str, topic: &str) -> (r: bool)
    ensures
        r == spec_topic_match(spec_split_slash(pattern@), spec_split_slash(topic@)),
{
    let p = split_segments(pattern);
    let t = split_segments(topic);
    let ghost pv = p.deep_view();
    let ghost tv = t.deep_view();
    let mut pi: usize = 0;
    let mut ti: usize = 0;
    proof {
        assert(pv.skip(0) =~= pv);
        assert(tv.skip(0) =~= tv);
    }
    while pi < p.len() && ti < t.len()
        invariant
            pv == spec_split_slash(pattern@),
            tv == spec_split_slash(topic@),
            pv == p.deep_view(),
            tv == t.deep_view(),
            pi <= pv.len(),
            ti <= tv.len(),
            p@.len() == pv.len(),
            t@.len() == tv.len(),
            spec_topic_match(pv, tv) == spec_topic_match(pv.skip(pi as int), tv.skip(ti as int)),
        decreases pv.len() - pi,
    {
        proof {
            assert(p@[pi as int]@ =~= pv.skip(pi as int).first());
            assert(t@[ti as int]@ =~= tv.skip(ti as int).first());
        }
        if is_wildcard(&p[pi], '#') {
            return true;
        } else if is_wildcard(&p[pi], '+') || crate::strutil::chars_eq(&p[pi], &t[ti]) {
            proof {
                assert(pv.skip(pi as int).drop_first() =~= pv.skip(pi + 1));
                assert(tv.skip(ti as int).drop_first() =~= tv.skip(ti + 1));
            }
            pi = pi + 1;
            ti = ti + 1;
        } else {
            return false;
        }
    }
    if pi < p.len() && is_wildcard(&p[pi], '#') {
        proof {
            assert(p@[pi as int]@ =~= pv.skip(pi as int).first());
        }
        return true;
    }
    proof {
        if pi < pv.len() {
            assert(p@[pi as int]@ =~= pv.skip(pi as int).first());
        }
        if pi == pv.len() {
            assert(pv.skip(pi as int).len() == 0);
        }
        if ti == tv.len() {
            assert(tv.skip(ti as int).len() == 0);
        }
    }
    pi == p.len() && ti == t.len()
}

} // verus!
