use vstd::prelude::*;
use vstd::multiset::Multiset;
use crate::content::{MDContent, MDContentView, PageContent, PageContentView};

verus! {

broadcast use vstd::seq_lib::group_to_multiset_ensures;

/// Values that carry a creation time by which they are ordered.
pub trait CreatedOrder: View + Sized {
    /// The creation time of an abstract value.
    spec fn created_of(v: Self::V) -> i64;

    /// The creation time of this value.
    fn created(&self) -> (r: i64)
        ensures
            r == Self::created_of(self@),
    ;
}

impl CreatedOrder for MDContent {
    open spec fn created_of(v: MDContentView) -> i64 {
        v.created
    }

    fn created(&self) -> (r: i64) {
        self.created
    }
}

impl CreatedOrder for PageContent {
    open spec fn created_of(v: PageContentView) -> i64 {
        v.markdown.created
    }

    fn created(&self) -> (r: i64) {
        self.markdown.created
    }
}

/// The abstract values of a sequence of values.
pub open spec fn views<T: View>(s: Seq<T>) -> Seq<T::V> {
    s.map_values(|t: T| t@)
}

/// Creation times never decrease along `s`.
pub open spec fn sorted_by_created<T: CreatedOrder>(s: Seq<T::V>) -> bool {
    forall|i: int, j: int| 0 <= i < j < s.len() ==> T::created_of(s[i]) <= T::created_of(s[j])
}

/// Markdown sorted by creation time has creation times that never
/// decrease: the key is the `created` field itself.
pub proof fn lemma_markdown_sorted_by_creation(s: Seq<MDContent>)
    requires
        sorted_by_created::<MDContent>(views(s)),
    ensures
        forall|i: int, j: int| 0 <= i < j < s.len() ==> s[i].created <= s[j].created,
{
    assert forall|i: int, j: int| 0 <= i < j < s.len() implies s[i].created <= s[j].created by {
        assert(views(s)[i] == s[i]@ && views(s)[j] == s[j]@);
    }
}

/// Pages sorted by creation time have markdown creation times that never
/// decrease: the key is the `created` field of their markdown itself.
pub proof fn lemma_pages_sorted_by_markdown_creation(s: Seq<PageContent>)
    requires
        sorted_by_created::<PageContent>(views(s)),
    ensures
        forall|i: int, j: int|
            0 <= i < j < s.len() ==> s[i].markdown.created <= s[j].markdown.created,
{
    assert forall|i: int, j: int| 0 <= i < j < s.len() implies s[i].markdown.created
        <= s[j].markdown.created by {
        assert(views(s)[i] == s[i]@ && views(s)[j] == s[j]@);
    }
}

proof fn lemma_views_push<T: View>(s: Seq<T>, a: T)
    ensures
        views(s.push(a)) == views(s).push(a@),
{
    assert(views(s.push(a)) =~= views(s).push(a@));
}

proof fn lemma_views_insert<T: View>(s: Seq<T>, i: int, a: T)
    requires
        0 <= i <= s.len(),
    ensures
        views(s.insert(i, a)) == views(s).insert(i, a@),
{
    assert(views(s.insert(i, a)) =~= views(s).insert(i, a@));
}

/// Orders values by creation time, earliest first. What comes out is what
/// went in, in another order; among values created at the same time the
/// order is left open.
pub fn sort_by_created<T: CreatedOrder>(v: Vec<T>) -> (r: Vec<T>)
    ensures
        sorted_by_created::<T>(views(r@)),
        views(r@).to_multiset() == views(v@).to_multiset(),
{
    let ghost start = views(v@).to_multiset();
    let mut input = v;
    let mut out: Vec<T> = Vec::new();
    assert(views(out@) =~= Seq::<T::V>::empty());
    assert(views(out@).to_multiset() =~= Multiset::empty());
    while input.len() > 0
        invariant
            sorted_by_created::<T>(views(out@)),
            views(out@).to_multiset().add(views(input@).to_multiset()) == start,
        decreases input.len(),
    {
        let ghost before = input@;
        let x = input.pop().unwrap();
        proof {
            lemma_views_push(input@, x);
            assert(before == input@.push(x));
        }
        let key = x.created();
        let mut p: usize = 0;
        while p < out.len() && out[p].created() <= key
            invariant
                p <= out.len(),
                sorted_by_created::<T>(views(out@)),
                forall|i: int| 0 <= i < p ==> T::created_of(#[trigger] out@[i]@) <= key,
            decreases out.len() - p,
        {
            p = p + 1;
        }
        let ghost old_out = out@;
        out.insert(p, x);
        proof {
            lemma_views_insert(old_out, p as int, x);
            assert forall|i: int| p < i < old_out.len() implies key < T::created_of(
                #[trigger] old_out[i]@,
            ) by {
                assert(T::created_of(views(old_out)[p as int]) <= T::created_of(
                    views(old_out)[i],
                ));
            }
            assert forall|i: int, j: int|
                0 <= i < j < views(out@).len() implies T::created_of(views(out@)[i])
                <= T::created_of(views(out@)[j]) by {
                assert(views(out@)[i] == if i < p {
                    views(old_out)[i]
                } else if i == p {
                    x@
                } else {
                    views(old_out)[i - 1]
                });
                assert(views(out@)[j] == if j < p {
                    views(old_out)[j]
                } else if j == p {
                    x@
                } else {
                    views(old_out)[j - 1]
                });
                if i < p && j > p {
                    assert(T::created_of(old_out[i]@) <= key);
                    assert(key < T::created_of(old_out[j - 1]@));
                } else if i < p && j == p {
                    assert(T::created_of(old_out[i]@) <= key);
                } else if i == p && j > p {
                    assert(key < T::created_of(old_out[j - 1]@));
                }
            }
            assert(views(out@).to_multiset() == views(old_out).to_multiset().insert(x@));
            assert(views(before).to_multiset() == views(input@).to_multiset().insert(x@));
            assert(views(out@).to_multiset().add(views(input@).to_multiset()) =~= views(
                old_out,
            ).to_multiset().add(views(before).to_multiset()));
        }
    }
    assert(views(input@) =~= Seq::<T::V>::empty());
    assert(views(out@).to_multiset().add(views(input@).to_multiset()) =~= views(
        out@,
    ).to_multiset());
    out
}

} // verus!
