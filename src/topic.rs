use vstd::prelude::*;

verus! {

/// The longest topic name or filter, in bytes, that the broker accepts.
pub const MAX_TOPIC_LEN: usize = 64;

pub const LEVEL_SEPARATOR: u8 = 0x2f;

pub const SINGLE_LEVEL_WILDCARD: u8 = 0x2b;

pub const MULTI_LEVEL_WILDCARD: u8 = 0x23;

/// The levels of a topic: the byte runs between separators, so `n`
/// separators give `n + 1` levels, some of them possibly empty.
pub open spec fn spec_levels(s: Seq<u8>) -> Seq<Seq<u8>>
    decreases s.len(),
{
    if s.len() == 0 {
        seq![Seq::<u8>::empty()]
    } else {
        let p = spec_levels(s.drop_last());
        if s.last() == LEVEL_SEPARATOR {
            p.push(Seq::<u8>::empty())
        } else {
            p.update(p.len() - 1, p.last().push(s.last()))
        }
    }
}

pub open spec fn spec_is_plus(l: Seq<u8>) -> bool {
    l == seq![SINGLE_LEVEL_WILDCARD]
}

pub open spec fn spec_is_hash(l: Seq<u8>) -> bool {
    l == seq![MULTI_LEVEL_WILDCARD]
}

/// Matching of filter levels against topic levels: `+` stands for exactly
/// one non-empty level, or for an empty last level; `#` for all remaining
/// levels, zero or more.
pub open spec fn spec_levels_match(f: Seq<Seq<u8>>, t: Seq<Seq<u8>>) -> bool
    decreases f.len(),
{
    if f.len() == 0 {
        t.len() == 0
    } else if spec_is_hash(f[0]) {
        true
    } else if t.len() == 0 {
        false
    } else if (spec_is_plus(f[0]) && (t[0].len() > 0 || t.len() == 1)) || f[0] == t[0] {
        spec_levels_match(f.drop_first(), t.drop_first())
    } else {
        false
    }
}

pub open spec fn spec_filter_matches(filter: Seq<u8>, topic: Seq<u8>) -> bool {
    spec_levels_match(spec_levels(filter), spec_levels(topic))
}

pub open spec fn spec_no_wildcard(l: Seq<u8>) -> bool {
    forall|k: int|
        0 <= k < l.len() ==> l[k] != SINGLE_LEVEL_WILDCARD && l[k] != MULTI_LEVEL_WILDCARD
}

/// A well-formed filter: not empty, not too long, wildcards only as whole
/// levels, and `#` only as the last level.
pub open spec fn spec_valid_filter(f: Seq<u8>) -> bool {
    &&& 0 < f.len() <= MAX_TOPIC_LEN
    &&& forall|i: int|
        0 <= i < spec_levels(f).len() ==> {
            let l = #[trigger] spec_levels(f)[i];
            &&& (spec_is_plus(l) || spec_is_hash(l) || spec_no_wildcard(l))
            &&& (spec_is_hash(l) ==> i == spec_levels(f).len() - 1)
        }
}

/// A well-formed name to publish to: not empty, not too long, no wildcards.
pub open spec fn spec_valid_topic_name(t: Seq<u8>) -> bool {
    0 < t.len() <= MAX_TOPIC_LEN && spec_no_wildcard(t)
}

pub open spec fn views(v: Seq<Vec<u8>>) -> Seq<Seq<u8>> {
    v.map_values(|x: Vec<u8>| x@)
}

/// The filter `#` matches every topic, the empty one and those with empty
/// levels included.
pub proof fn lemma_hash_matches_everything(topic: Seq<u8>)
    ensures
        spec_filter_matches(seq![MULTI_LEVEL_WILDCARD], topic),
{
    let f = seq![MULTI_LEVEL_WILDCARD];
    assert(f.drop_last() =~= Seq::<u8>::empty());
    assert(Seq::<u8>::empty().push(MULTI_LEVEL_WILDCARD) =~= f);
    reveal_with_fuel(spec_levels, 2);
    assert(spec_levels(f) =~= seq![f]);
}

pub open spec fn spec_has_hash(f: Seq<Seq<u8>>) -> bool {
    exists|i: int| 0 <= i < f.len() && spec_is_hash(#[trigger] f[i])
}

/// A filter without `#` matches only topics with as many levels as it has.
pub proof fn lemma_match_same_depth(f: Seq<Seq<u8>>, t: Seq<Seq<u8>>)
    requires
        !spec_has_hash(f),
        spec_levels_match(f, t),
    ensures
        f.len() == t.len(),
    decreases f.len(),
{
    if f.len() > 0 {
        assert(!spec_is_hash(f[0]));
        assert(!spec_has_hash(f.drop_first())) by {
            if spec_has_hash(f.drop_first()) {
                let i = choose|i: int| 0 <= i < f.drop_first().len() && spec_is_hash(#[trigger] f.drop_first()[i]);
                assert(f.drop_first()[i] == f[i + 1]);
            }
        }
        lemma_match_same_depth(f.drop_first(), t.drop_first());
    }
}

/// Appending a `#` level to a filter keeps every topic it matched: `a/#`
/// matches `a` itself.
pub proof fn lemma_hash_suffix_keeps_parent(f: Seq<Seq<u8>>, t: Seq<Seq<u8>>)
    requires
        spec_levels_match(f, t),
    ensures
        spec_levels_match(f.push(seq![MULTI_LEVEL_WILDCARD]), t),
    decreases f.len(),
{
    let g = f.push(seq![MULTI_LEVEL_WILDCARD]);
    if f.len() == 0 {
        assert(g[0] == seq![MULTI_LEVEL_WILDCARD]);
    } else {
        assert(g[0] == f[0]);
        if !spec_is_hash(f[0]) {
            assert(g.drop_first() =~= f.drop_first().push(seq![MULTI_LEVEL_WILDCARD]));
            lemma_hash_suffix_keeps_parent(f.drop_first(), t.drop_first());
        }
    }
}

/// Appending a `#` level to a filter makes it match every topic below one
/// it matched: `a/#` matches `a/b` and `a/b/c`. (A topic whose last level
/// is empty is left out: a `+` may have matched that level only because it
/// was last.)
pub proof fn lemma_hash_suffix_matches_below(f: Seq<Seq<u8>>, t: Seq<Seq<u8>>, below: Seq<Seq<u8>>)
    requires
        spec_levels_match(f, t),
        t.len() > 0 ==> t.last().len() > 0,
    ensures
        spec_levels_match(f.push(seq![MULTI_LEVEL_WILDCARD]), t + below),
    decreases f.len(),
{
    let g = f.push(seq![MULTI_LEVEL_WILDCARD]);
    if f.len() == 0 {
        assert(g[0] == seq![MULTI_LEVEL_WILDCARD]);
    } else {
        assert(g[0] == f[0]);
        if !spec_is_hash(f[0]) {
            assert((t + below)[0] == t[0]);
            assert(g.drop_first() =~= f.drop_first().push(seq![MULTI_LEVEL_WILDCARD]));
            assert((t + below).drop_first() =~= t.drop_first() + below);
            if t.len() > 1 {
                assert(t.drop_first().last() == t.last());
            }
            lemma_hash_suffix_matches_below(f.drop_first(), t.drop_first(), below);
        }
    }
}

/// A byte-for-byte copy.
pub fn copy_bytes(v: &Vec<u8>) -> (r: Vec<u8>)
    ensures
        r@ == v@,
{
    let mut r: Vec<u8> = Vec::new();
    for i in 0..v.len()
        invariant
            r@ == v@.take(i as int),
    {
        r.push(v[i]);
        assert(v@.take(i + 1) =~= v@.take(i as int).push(v@[i as int]));
    }
    assert(v@.take(v.len() as int) =~= v@);
    r
}

/// Byte-wise equality.
pub fn bytes_equal(a: &Vec<u8>, b: &Vec<u8>) -> (r: bool)
    ensures
        r == (a@ == b@),
{
    if a.len() != b.len() {
        return false;
    }
    for i in 0..a.len()
        invariant
            a.len() == b.len(),
            forall|k: int| 0 <= k < i ==> a@[k] == b@[k],
    {
        if a[i] != b[i] {
            return false;
        }
    }
    assert(a@ =~= b@);
    true
}

fn is_single_byte(l: &Vec<u8>, c: u8) -> (r: bool)
    ensures
        r == (l@ == seq![c]),
{
    if l.len() == 1 && l[0] == c {
        assert(l@ =~= seq![c]);
        true
    } else {
        false
    }
}

fn has_no_wildcard(l: &Vec<u8>) -> (r: bool)
    ensures
        r == spec_no_wildcard(l@),
{
    for i in 0..l.len()
        invariant
            forall|k: int|
                0 <= k < i ==> l@[k] != SINGLE_LEVEL_WILDCARD && l@[k] != MULTI_LEVEL_WILDCARD,
    {
        if l[i] == SINGLE_LEVEL_WILDCARD || l[i] == MULTI_LEVEL_WILDCARD {
            return false;
        }
    }
    true
}

/// Splits a topic or filter into its levels.
pub fn split_levels(s: &Vec<u8>) -> (r: Vec<Vec<u8>>)
    ensures
        views(r@) == spec_levels(s@),
{
    let mut done: Vec<Vec<u8>> = Vec::new();
    let mut cur: Vec<u8> = Vec::new();
    assert(s@.take(0) =~= Seq::<u8>::empty());
    assert(views(done@).push(cur@) =~= spec_levels(s@.take(0)));
    for i in 0..s.len()
        invariant
            views(done@).push(cur@) == spec_levels(s@.take(i as int)),
    {
        let ghost pre = s@.take(i as int);
        assert(s@.take(i + 1).drop_last() =~= pre);
        assert(s@.take(i + 1).last() == s@[i as int]);
        let b = s[i];
        if b == LEVEL_SEPARATOR {
            let ghost old_done = done@;
            let ghost old_cur = cur@;
            done.push(cur);
            cur = Vec::new();
            assert(views(done@) =~= views(old_done).push(old_cur));
            assert(views(done@).push(cur@) =~= spec_levels(s@.take(i + 1)));
        } else {
            cur.push(b);
            assert(views(done@).push(cur@) =~= spec_levels(s@.take(i + 1)));
        }
    }
    assert(s@.take(s.len() as int) =~= s@);
    let ghost old_done = done@;
    done.push(cur);
    assert(views(done@) =~= views(old_done).push(cur@));
    done
}

fn levels_match(f: &Vec<Vec<u8>>, t: &Vec<Vec<u8>>) -> (r: bool)
    ensures
        r == spec_levels_match(views(f@), views(t@)),
{
    let ghost fv = views(f@);
    let ghost tv = views(t@);
    let mut i: usize = 0;
    assert(fv.skip(0) =~= fv);
    assert(tv.skip(0) =~= tv);
    loop
        invariant
            i <= f.len(),
            i <= t.len(),
            fv == views(f@),
            tv == views(t@),
            spec_levels_match(fv, tv) == spec_levels_match(fv.skip(i as int), tv.skip(i as int)),
        decreases f.len() - i,
    {
        let ghost fs = fv.skip(i as int);
        let ghost ts = tv.skip(i as int);
        if i == f.len() {
            assert(fs.len() == 0);
            return i == t.len();
        }
        assert(fs[0] == f@[i as int]@);
        if is_single_byte(&f[i], MULTI_LEVEL_WILDCARD) {
            return true;
        }
        if i == t.len() {
            assert(ts.len() == 0);
            return false;
        }
        assert(ts[0] == t@[i as int]@);
        let plus_fits = is_single_byte(&f[i], SINGLE_LEVEL_WILDCARD) && (t[i].len() > 0 || i + 1
            == t.len());
        if plus_fits || bytes_equal(&f[i], &t[i]) {
            assert(fs.drop_first() =~= fv.skip(i + 1));
            assert(ts.drop_first() =~= tv.skip(i + 1));
            i = i + 1;
        } else {
            return false;
        }
    }
}

/// Whether a concrete topic matches a filter under MQTT wildcard rules.
pub fn filter_matches(filter: &Vec<u8>, topic: &Vec<u8>) -> (r: bool)
    ensures
        r == spec_filter_matches(filter@, topic@),
{
    let f = split_levels(filter);
    let t = split_levels(topic);
    levels_match(&f, &t)
}

/// Whether a topic name may be published to.
pub fn is_valid_topic_name(t: &Vec<u8>) -> (r: bool)
    ensures
        r == spec_valid_topic_name(t@),
{
    t.len() > 0 && t.len() <= MAX_TOPIC_LEN && has_no_wildcard(t)
}

/// Whether a filter may be subscribed to.
pub fn is_valid_filter(f: &Vec<u8>) -> (r: bool)
    ensures
        r == spec_valid_filter(f@),
{
    if f.len() == 0 || f.len() > MAX_TOPIC_LEN {
        return false;
    }
    let ls = split_levels(f);
    let ghost lv = spec_levels(f@);
    for i in 0..ls.len()
        invariant
            views(ls@) == lv,
            lv == spec_levels(f@),
            forall|k: int|
                0 <= k < i ==> {
                    let l = #[trigger] lv[k];
                    &&& (spec_is_plus(l) || spec_is_hash(l) || spec_no_wildcard(l))
                    &&& (spec_is_hash(l) ==> k == lv.len() - 1)
                },
    {
        assert(lv[i as int] == ls@[i as int]@);
        let plus = is_single_byte(&ls[i], SINGLE_LEVEL_WILDCARD);
        let hash = is_single_byte(&ls[i], MULTI_LEVEL_WILDCARD);
        if hash && i + 1 != ls.len() {
            return false;
        }
        if !plus && !hash && !has_no_wildcard(&ls[i]) {
            return false;
        }
    }
    true
}

} // verus!
