use vstd::prelude::*;

verus! {

/// One RGBA8 pixel.
#[derive(Clone, Copy, Debug, PartialEq, Eq, Structural)]
pub struct Rgba {
    pub r: u8,
    pub g: u8,
    pub b: u8,
    pub a: u8,
}

/// The values of `s` in ascending order.
pub open spec fn sorted_u8(s: Seq<u8>) -> Seq<u8> {
    s.sort_by(|x: u8, y: u8| x <= y)
}

/// The median of a sequence: the middle element once it is sorted.
pub open spec fn median_of(s: Seq<u8>) -> u8 {
    sorted_u8(s)[s.len() as int / 2]
}

pub open spec fn reds(s: Seq<Rgba>) -> Seq<u8> {
    s.map_values(|p: Rgba| p.r)
}

pub open spec fn greens(s: Seq<Rgba>) -> Seq<u8> {
    s.map_values(|p: Rgba| p.g)
}

pub open spec fn blues(s: Seq<Rgba>) -> Seq<u8> {
    s.map_values(|p: Rgba| p.b)
}

pub open spec fn alphas(s: Seq<Rgba>) -> Seq<u8> {
    s.map_values(|p: Rgba| p.a)
}

/// The colour whose every channel is the median of that channel over `s`.
pub open spec fn median_colour(s: Seq<Rgba>) -> Rgba {
    Rgba {
        r: median_of(reds(s)),
        g: median_of(greens(s)),
        b: median_of(blues(s)),
        a: median_of(alphas(s)),
    }
}

/// Relies on `slice::sort_unstable`: afterwards the values are in ascending order.
#[verifier::external_body]
fn sort_channel(v: &mut Vec<u8>)
    ensures
        final(v)@ == sorted_u8(old(v)@),
{
    v.sort_unstable();
}

/// The median of one channel; `v` is consumed as scratch space.
fn channel_median(v: Vec<u8>) -> (m: u8)
    requires
        v@.len() > 0,
    ensures
        m == median_of(v@),
{
    let ghost orig = v@;
    let mut v = v;
    sort_channel(&mut v);
    proof {
        orig.lemma_sort_by_ensures(|x: u8, y: u8| x <= y);
        orig.to_multiset_ensures();
        v@.to_multiset_ensures();
    }
    let mid = v.len() / 2;
    v[mid]
}

/// Per-channel median of a non-empty set of colours. Each channel is taken on
/// its own, so the result need not be one of the input colours.
pub fn get_mean_colour(colours: &Vec<Rgba>) -> (c: Rgba)
    requires
        colours@.len() > 0,
    ensures
        c == median_colour(colours@),
{
    let mut r: Vec<u8> = Vec::new();
    let mut g: Vec<u8> = Vec::new();
    let mut b: Vec<u8> = Vec::new();
    let mut a: Vec<u8> = Vec::new();
    let mut i: usize = 0;
    while i < colours.len()
        invariant
            i <= colours@.len(),
            r@ == reds(colours@.take(i as int)),
            g@ == greens(colours@.take(i as int)),
            b@ == blues(colours@.take(i as int)),
            a@ == alphas(colours@.take(i as int)),
        decreases colours@.len() - i,
    {
        let p = colours[i];
        r.push(p.r);
        g.push(p.g);
        b.push(p.b);
        a.push(p.a);
        i = i + 1;
        assert(colours@.take(i as int) == colours@.take(i - 1).push(p));
        assert(r@ =~= reds(colours@.take(i as int)));
        assert(g@ =~= greens(colours@.take(i as int)));
        assert(b@ =~= blues(colours@.take(i as int)));
        assert(a@ =~= alphas(colours@.take(i as int)));
    }
    assert(colours@.take(i as int) =~= colours@);
    Rgba {
        r: channel_median(r),
        g: channel_median(g),
        b: channel_median(b),
        a: channel_median(a),
    }
}

/// The median of a sequence whose values are all `v` is `v`.
pub proof fn lemma_median_of_uniform(s: Seq<u8>, v: u8)
    requires
        s.len() > 0,
        forall|i: int| 0 <= i < s.len() ==> s[i] == v,
    ensures
        median_of(s) == v,
{
    s.lemma_sort_by_ensures(|x: u8, y: u8| x <= y);
    s.to_multiset_ensures();
    let t = sorted_u8(s);
    t.to_multiset_ensures();
    let m = t[s.len() as int / 2];
    assert(t.contains(m));
    if m != v {
        assert(!s.contains(m));
    }
}

/// The per-channel median of colours that are all `c` is `c`.
pub proof fn lemma_median_colour_uniform(s: Seq<Rgba>, c: Rgba)
    requires
        s.len() > 0,
        forall|i: int| 0 <= i < s.len() ==> s[i] == c,
    ensures
        median_colour(s) == c,
{
    lemma_median_of_uniform(reds(s), c.r);
    lemma_median_of_uniform(greens(s), c.g);
    lemma_median_of_uniform(blues(s), c.b);
    lemma_median_of_uniform(alphas(s), c.a);
}

} // verus!
