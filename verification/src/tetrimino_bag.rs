use crate::tetrimino::TetriminoType;
use rand::Rng;
use vstd::prelude::*;

verus! {

/// The seven piece types in the order in which a fresh bag holds them.
pub open spec fn full_bag() -> Seq<TetriminoType> {
    seq![
        TetriminoType::I,
        TetriminoType::J,
        TetriminoType::L,
        TetriminoType::O,
        TetriminoType::S,
        TetriminoType::T,
        TetriminoType::Z,
    ]
}

/// A bag holds between one and seven real piece types, none of them twice.
pub open spec fn bag_wf(b: Seq<TetriminoType>) -> bool {
    &&& 0 < b.len() <= 7
    &&& b.no_duplicates()
    &&& forall|i: int| 0 <= i < b.len() ==> #[trigger] b[i] != TetriminoType::Empty
}

/// The bag after the item at `index` was taken out: the last item fills the
/// gap, and a bag that would be left empty is filled afresh.
pub open spec fn bag_after_draw(b: Seq<TetriminoType>, index: int) -> Seq<TetriminoType> {
    if b.len() == 1 {
        full_bag()
    } else {
        b.update(index, b.last()).drop_last()
    }
}

/// A fresh bag is a bag.
pub proof fn lemma_full_bag_wf()
    ensures
        bag_wf(full_bag()),
{
}

/// Taking an item out of a bag leaves a bag.
pub proof fn lemma_draw_keeps_wf(b: Seq<TetriminoType>, index: int)
    requires
        bag_wf(b),
        0 <= index < b.len(),
    ensures
        bag_wf(bag_after_draw(b, index)),
        b[index] != TetriminoType::Empty,
{
    if b.len() > 1 {
        let a = bag_after_draw(b, index);
        assert forall|i: int, j: int| 0 <= i < a.len() && 0 <= j < a.len() && i != j implies a[i]
            != a[j] by {
            let si = if i == index {
                b.len() - 1
            } else {
                i
            };
            let sj = if j == index {
                b.len() - 1
            } else {
                j
            };
            assert(a[i] == b[si] && a[j] == b[sj] && si != sj);
        }
    }
}

/// What holds of the types drawn from a fresh bag and of the bag they left:
/// together they are the seven types, each once.
pub open spec fn fresh_split(drawn: Seq<TetriminoType>, bag: Seq<TetriminoType>) -> bool {
    &&& bag_wf(bag)
    &&& drawn.no_duplicates()
    &&& drawn.len() + bag.len() == 7
    &&& forall|i: int| 0 <= i < drawn.len() ==> #[trigger] drawn[i] != TetriminoType::Empty
    &&& forall|i: int, j: int|
        0 <= i < drawn.len() && 0 <= j < bag.len() ==> drawn[i] != bag[j]
}

/// A draw from a bag of more than one type moves one type from the bag to
/// the types drawn.
pub proof fn lemma_draw_split(drawn: Seq<TetriminoType>, bag: Seq<TetriminoType>, index: int)
    requires
        fresh_split(drawn, bag),
        bag.len() > 1,
        0 <= index < bag.len(),
    ensures
        fresh_split(drawn.push(bag[index]), bag_after_draw(bag, index)),
{
    lemma_draw_keeps_wf(bag, index);
    let d = drawn.push(bag[index]);
    let b = bag_after_draw(bag, index);
    assert forall|i: int, j: int| 0 <= i < d.len() && 0 <= j < b.len() implies d[i] != b[j] by {
        let sj = if j == index {
            bag.len() - 1
        } else {
            j
        };
        assert(b[j] == bag[sj] && sj != index);
    }
    assert forall|i: int, j: int| 0 <= i < d.len() && 0 <= j < d.len() && i != j implies d[i]
        != d[j] by {}
}

/// The bag after the items at the places `picks` were taken out one after
/// the other.
pub open spec fn bag_after_draws(b: Seq<TetriminoType>, picks: Seq<int>) -> Seq<TetriminoType>
    decreases picks.len(),
{
    if picks.len() == 0 {
        b
    } else {
        bag_after_draw(bag_after_draws(b, picks.drop_last()), picks.last())
    }
}

/// The items that were taken out at the places `picks`, in their order.
pub open spec fn drawn_at(b: Seq<TetriminoType>, picks: Seq<int>) -> Seq<TetriminoType>
    decreases picks.len(),
{
    if picks.len() == 0 {
        Seq::empty()
    } else {
        drawn_at(b, picks.drop_last()).push(
            bag_after_draws(b, picks.drop_last())[picks.last()],
        )
    }
}

/// Every place of `picks` is a place of the bag at the time of its draw.
pub open spec fn picks_valid(b: Seq<TetriminoType>, picks: Seq<int>) -> bool
    decreases picks.len(),
{
    if picks.len() == 0 {
        true
    } else {
        picks_valid(b, picks.drop_last()) && 0 <= picks.last() < bag_after_draws(
            b,
            picks.drop_last(),
        ).len()
    }
}

/// Every real type is among the items drawn or in the bag.
pub open spec fn all_types_in(drawn: Seq<TetriminoType>, bag: Seq<TetriminoType>) -> bool {
    forall|t: TetriminoType|
        t != TetriminoType::Empty ==> #[trigger] drawn.contains(t) || bag.contains(t)
}

proof fn lemma_draws_from_fresh_bag(picks: Seq<int>)
    requires
        picks.len() <= 6,
        picks_valid(full_bag(), picks),
    ensures
        fresh_split(drawn_at(full_bag(), picks), bag_after_draws(full_bag(), picks)),
        all_types_in(drawn_at(full_bag(), picks), bag_after_draws(full_bag(), picks)),
        drawn_at(full_bag(), picks).len() == picks.len(),
    decreases picks.len(),
{
    let full = full_bag();
    if picks.len() == 0 {
        assert forall|t: TetriminoType| t != TetriminoType::Empty implies full.contains(t) by {
            match t {
                TetriminoType::I => assert(full[0] == t),
                TetriminoType::J => assert(full[1] == t),
                TetriminoType::L => assert(full[2] == t),
                TetriminoType::O => assert(full[3] == t),
                TetriminoType::S => assert(full[4] == t),
                TetriminoType::T => assert(full[5] == t),
                TetriminoType::Z => assert(full[6] == t),
                TetriminoType::Empty => {},
            }
        }
    } else {
        let before = picks.drop_last();
        lemma_draws_from_fresh_bag(before);
        let drawn = drawn_at(full, before);
        let bag = bag_after_draws(full, before);
        let index = picks.last();
        lemma_draw_split(drawn, bag, index);
        let drawn2 = drawn.push(bag[index]);
        let bag2 = bag_after_draw(bag, index);
        assert forall|t: TetriminoType| t != TetriminoType::Empty implies #[trigger] drawn2.contains(
            t,
        ) || bag2.contains(t) by {
            if drawn.contains(t) {
                let i = choose|i: int| 0 <= i < drawn.len() && drawn[i] == t;
                assert(drawn2[i] == t);
            } else {
                assert(bag.contains(t));
                let j = choose|j: int| 0 <= j < bag.len() && bag[j] == t;
                if j == index {
                    assert(drawn2[drawn.len() as int] == t);
                } else if j == bag.len() - 1 {
                    assert(bag2[index] == t);
                } else {
                    assert(bag2[j] == t);
                }
            }
        }
    }
}

/// Seven draws from a fresh bag, whatever the places drawn at, give each
/// of the seven types once and leave a fresh bag.
pub proof fn lemma_bag_cycle(picks: Seq<int>)
    requires
        picks.len() == 7,
        picks_valid(full_bag(), picks),
    ensures
        bag_after_draws(full_bag(), picks) == full_bag(),
        drawn_at(full_bag(), picks).len() == 7,
        drawn_at(full_bag(), picks).no_duplicates(),
        forall|t: TetriminoType|
            t != TetriminoType::Empty ==> #[trigger] drawn_at(full_bag(), picks).contains(t),
{
    let full = full_bag();
    let before = picks.drop_last();
    lemma_draws_from_fresh_bag(before);
    let drawn = drawn_at(full, before);
    let bag = bag_after_draws(full, before);
    let all = drawn_at(full, picks);
    assert(bag.len() == 1);
    assert(picks.last() == 0);
    assert(all == drawn.push(bag[0]));
    assert forall|t: TetriminoType| t != TetriminoType::Empty implies #[trigger] all.contains(
        t,
    ) by {
        if drawn.contains(t) {
            let i = choose|i: int| 0 <= i < drawn.len() && drawn[i] == t;
            assert(all[i] == t);
        } else {
            assert(bag.contains(t));
            assert(all[6] == t);
        }
    }
    assert forall|i: int, j: int| 0 <= i < all.len() && 0 <= j < all.len() && i != j implies all[i]
        != all[j] by {}
}

/// A uniformly drawn number below `high`: `rand::Rng::gen_range` with the
/// bounds `0` and `high`, on the generator of the calling thread. The
/// contract states the range that `gen_range` documents and nothing else;
/// `gen_range` panics on an empty range, which `requires` leaves out.
#[verifier::external_body]
pub(crate) fn random_below(high: usize) -> (r: usize)
    requires
        high > 0,
    ensures
        r < high,
{
    rand::thread_rng().gen_range(0, high)
}

/// The randomizer: piece types are drawn from it without replacement, and
/// it is filled afresh with all seven when the last one is drawn.
#[derive(Debug, PartialEq)]
pub struct TetriminoBag(Vec<TetriminoType>);

impl View for TetriminoBag {
    type V = Seq<TetriminoType>;

    closed spec fn view(&self) -> Seq<TetriminoType> {
        self.0@
    }
}

impl Clone for TetriminoBag {
    fn clone(&self) -> (r: Self)
        ensures
            r@ == self@,
    {
        Self(self.contents())
    }
}

impl TetriminoBag {
    pub open spec fn wf(&self) -> bool {
        bag_wf(self@)
    }

    pub fn new() -> (r: Self)
        ensures
            r@ == full_bag(),
            r.wf(),
    {
        Self(Self::reseted_list())
    }

    fn reseted_list() -> (r: Vec<TetriminoType>)
        ensures
            r@ == full_bag(),
    {
        let r = vec![
            TetriminoType::I,
            TetriminoType::J,
            TetriminoType::L,
            TetriminoType::O,
            TetriminoType::S,
            TetriminoType::T,
            TetriminoType::Z,
        ];
        assert(r@ =~= full_bag());
        r
    }

    /// A bag with the given contents, if they make a bag.
    pub fn from_vec(items: Vec<TetriminoType>) -> (r: Option<Self>)
        ensures
            r is Some <==> bag_wf(items@),
            r matches Some(bag) ==> bag@ == items@,
    {
        let n = items.len();
        if n == 0 || n > 7 {
            return None;
        }
        let mut i: usize = 0;
        while i < n
            invariant
                n == items@.len(),
                0 < n <= 7,
                i <= n,
                forall|a: int| 0 <= a < i ==> #[trigger] items@[a] != TetriminoType::Empty,
                forall|a: int, b: int| 0 <= a < i && 0 <= b < a ==> items@[a] != items@[b],
            decreases n - i,
        {
            if items[i] == TetriminoType::Empty {
                return None;
            }
            let mut j: usize = 0;
            while j < i
                invariant
                    n == items@.len(),
                    i < n,
                    j <= i,
                    forall|b: int| 0 <= b < j ==> items@[i as int] != items@[b],
                decreases i - j,
            {
                if items[i] == items[j] {
                    return None;
                }
                j += 1;
            }
            i += 1;
        }
        assert forall|a: int, b: int| 0 <= a < n && 0 <= b < n && a != b implies items@[a]
            != items@[b] by {
            if b < a {
            } else {
                assert(items@[b] != items@[a]);
            }
        }
        Some(Self(items))
    }

    /// How many types the bag holds.
    pub fn len(&self) -> (r: usize)
        ensures
            r == self@.len(),
    {
        self.0.len()
    }

    /// What the bag holds, in the order in which it holds it.
    pub fn contents(&self) -> (r: Vec<TetriminoType>)
        ensures
            r@ == self@,
    {
        let mut r: Vec<TetriminoType> = Vec::new();
        let mut i: usize = 0;
        while i < self.0.len()
            invariant
                i <= self.0@.len(),
                r@ == self.0@.take(i as int),
            decreases self.0@.len() - i,
        {
            r.push(self.0[i]);
            assert(self.0@.take(i + 1) =~= self.0@.take(i as int).push(self.0@[i as int]));
            i += 1;
        }
        assert(self.0@.take(self.0@.len() as int) =~= self.0@);
        r
    }

    /// Takes the item at `index` out of the bag.
    pub fn draw_at(&mut self, index: usize) -> (tetrimino: TetriminoType)
        requires
            old(self).wf(),
            index < old(self)@.len(),
        ensures
            tetrimino == old(self)@[index as int],
            tetrimino != TetriminoType::Empty,
            final(self)@ == bag_after_draw(old(self)@, index as int),
            final(self).wf(),
    {
        proof {
            lemma_draw_keeps_wf(self@, index as int);
        }
        let tetrimino = self.0.swap_remove(index);
        if self.0.len() == 0 {
            self.0 = Self::reseted_list();
        }
        tetrimino
    }

    /// Takes an item out of the bag at random.
    pub fn choose_a_tetrimino(&mut self) -> (tetrimino: TetriminoType)
        requires
            old(self).wf(),
        ensures
            exists|index: int|
                0 <= index < old(self)@.len() && tetrimino == old(self)@[index] && final(self)@
                    == #[trigger] bag_after_draw(old(self)@, index),
            tetrimino != TetriminoType::Empty,
            final(self).wf(),
    {
        let random = random_below(self.0.len());
        self.draw_at(random)
    }
}

} // verus!
