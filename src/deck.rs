use crate::card::{card_text, Card, Suit};
use crate::random::random_index;
use vstd::prelude::*;
use vstd::std_specs::cmp::PartialEqSpec;
use vstd::string::StringExecFns;

verus! {

/// The number of cards in each suit.
pub const SUIT_SIZE: usize = 13;

/// The number of cards in a full deck.
pub const DECK_SIZE: usize = 52;

/// An ordered sequence of cards, the top of the deck first.
pub struct Deck(pub Vec<Card>);

impl View for Deck {
    type V = Seq<Card>;

    open spec fn view(&self) -> Seq<Card> {
        self.0@
    }
}

/// The suit of the `g`-th group of a fresh deck: Hearts, Spades, Diamonds, then Clubs.
pub open spec fn suit_group(g: int) -> Suit {
    if g == 0 {
        Suit::Heart
    } else if g == 1 {
        Suit::Spade
    } else if g == 2 {
        Suit::Diamond
    } else {
        Suit::Club
    }
}

/// The position of a suit's group in a fresh deck.
pub open spec fn group_of(s: Suit) -> int {
    match s {
        Suit::Heart => 0,
        Suit::Spade => 1,
        Suit::Diamond => 2,
        Suit::Club => 3,
    }
}

/// The cards of one suit, ace to king.
pub open spec fn suit_cards(s: Suit) -> Seq<Card> {
    Seq::new(13, |i: int| Card { suit: s, value: (i + 1) as i32 })
}

/// The card at position `i` of a fresh deck.
pub open spec fn canonical_card(i: int) -> Card {
    Card { suit: suit_group(i / 13), value: (i % 13 + 1) as i32 }
}

/// A fresh deck: grouped by suit, values ascending within each group.
pub open spec fn canonical_deck() -> Seq<Card> {
    Seq::new(52, |i: int| canonical_card(i))
}

/// The text of a deck: each card's text followed by one space.
pub open spec fn deck_text(cards: Seq<Card>) -> Seq<char>
    decreases cards.len(),
{
    if cards.len() == 0 {
        Seq::empty()
    } else {
        deck_text(cards.drop_last()) + card_text(cards.last()) + seq![' ']
    }
}

/// `cards` with the cards at positions `i` and `j` exchanged.
pub open spec fn swap_at(cards: Seq<Card>, i: int, j: int) -> Seq<Card> {
    cards.update(i, cards[j]).update(j, cards[i])
}

/// `cards` after the exchanges of `swaps`, applied in order.
pub open spec fn swapped(cards: Seq<Card>, swaps: Seq<(usize, usize)>) -> Seq<Card>
    decreases swaps.len(),
{
    if swaps.len() == 0 {
        cards
    } else {
        let (i, j) = swaps.last();
        swap_at(swapped(cards, swaps.drop_last()), i as int, j as int)
    }
}

/// Every position named in `swaps` lies below `len`.
pub open spec fn swaps_within(swaps: Seq<(usize, usize)>, len: nat) -> bool {
    forall|k: int| 0 <= k < swaps.len() ==> #[trigger] swaps[k].0 < len && swaps[k].1 < len
}

impl Deck {
    /// Every card of the deck holds a value from 1 to 13.
    pub open spec fn cards_wf(&self) -> bool {
        forall|i: int| 0 <= i < self@.len() ==> #[trigger] self@[i].wf()
    }

    /// The thirteen cards of `suit`, ace to king.
    pub fn build_suit(suit: Suit) -> (r: Vec<Card>)
        ensures
            r@ == suit_cards(suit),
    {
        let mut cards = Vec::<Card>::with_capacity(SUIT_SIZE);
        let mut n: usize = 1;
        while n <= SUIT_SIZE
            invariant
                1 <= n <= SUIT_SIZE + 1,
                cards@ =~= suit_cards(suit).take(n - 1),
            decreases SUIT_SIZE + 1 - n,
        {
            cards.push(Card { suit, value: n as i32 });
            n += 1;
        }
        cards
    }

    /// A full deck in canonical order.
    pub fn new() -> (r: Deck)
        ensures
            r@ == canonical_deck(),
            r.cards_wf(),
    {
        let mut cards = Vec::<Card>::with_capacity(DECK_SIZE);
        cards.append(&mut Deck::build_suit(Suit::Heart));
        cards.append(&mut Deck::build_suit(Suit::Spade));
        cards.append(&mut Deck::build_suit(Suit::Diamond));
        cards.append(&mut Deck::build_suit(Suit::Club));
        assert(cards@ =~= canonical_deck());
        Deck(cards)
    }
    /// The text of the deck: each card's text followed by a single space.
    pub fn render(&self) -> (r: String)
        requires
            self.cards_wf(),
        ensures
            r@ == deck_text(self@),
    {
        let mut r = String::new();
        let mut i: usize = 0;
        while i < self.0.len()
            invariant
                i <= self@.len(),
                self.cards_wf(),
                r@ == deck_text(self@.take(i as int)),
            decreases self@.len() - i,
        {
            let text = self.0[i].render();
            r.append(text.as_str());
            r.append(" ");
            proof {
                reveal_strlit(" ");
                assert(self@.take(i + 1).drop_last() =~= self@.take(i as int));
            }
            i += 1;
        }
        assert(self@.take(i as int) =~= self@);
        r
    }

    /// Exchanges the cards at positions `i` and `j`.
    pub fn swap_cards(&mut self, i: usize, j: usize)
        requires
            i < old(self)@.len(),
            j < old(self)@.len(),
        ensures
            final(self)@ == swap_at(old(self)@, i as int, j as int),
            old(self).cards_wf() ==> final(self).cards_wf(),
    {
        let a = self.0[i];
        let b = self.0[j];
        self.0[i] = b;
        self.0[j] = a;
    }

    /// Applies the exchanges of `swaps` in order, each one between two positions of the deck.
    pub fn apply_swaps(&mut self, swaps: &Vec<(usize, usize)>)
        requires
            swaps_within(swaps@, old(self)@.len()),
        ensures
            final(self)@ == swapped(old(self)@, swaps@),
            old(self).cards_wf() ==> final(self).cards_wf(),
    {
        let mut k: usize = 0;
        while k < swaps.len()
            invariant
                k <= swaps@.len(),
                swaps_within(swaps@, old(self)@.len()),
                self@ == swapped(old(self)@, swaps@.take(k as int)),
                self@.len() == old(self)@.len(),
                old(self).cards_wf() ==> self.cards_wf(),
            decreases swaps@.len() - k,
        {
            let (i, j) = swaps[k];
            proof {
                assert(swaps@.take(k + 1).drop_last() =~= swaps@.take(k as int));
                assert(swaps@[k as int].0 < old(self)@.len());
            }
            self.swap_cards(i, j);
            k += 1;
        }
        assert(swaps@.take(k as int) =~= swaps@);
    }

    /// Performs `nb_permutations` exchanges, each between two positions drawn independently
    /// and uniformly at random (possibly the same position). The cards kept are the same.
    pub fn shuffle(&mut self, nb_permutations: u32)
        ensures
            final(self)@.len() == old(self)@.len(),
            final(self)@.to_multiset() == old(self)@.to_multiset(),
            old(self).cards_wf() ==> final(self).cards_wf(),
            nb_permutations == 0 || old(self)@.len() == 0 ==> final(self)@ == old(self)@,
            old(self)@.len() > 0 ==> exists|swaps: Seq<(usize, usize)>|
                swaps.len() == nb_permutations && swaps_within(swaps, old(self)@.len())
                    && final(self)@ == swapped(old(self)@, swaps),
    {
        let len = self.0.len();
        if len == 0 {
            return;
        }
        let mut rng = rand::thread_rng();
        let mut swaps: Vec<(usize, usize)> = Vec::new();
        let mut k: u32 = 0;
        while k < nb_permutations
            invariant
                k <= nb_permutations,
                len == self@.len(),
                len > 0,
                swaps@.len() == k,
                swaps_within(swaps@, len as nat),
            decreases nb_permutations - k,
        {
            let first = random_index(&mut rng, len);
            let second = random_index(&mut rng, len);
            swaps.push((first, second));
            proof {
                assert(swaps@.last() == (first, second));
            }
            k += 1;
        }
        self.apply_swaps(&swaps);
        proof {
            lemma_swaps_keep_cards(old(self)@, swaps@);
            assert(swaps@.len() == 0 ==> swapped(old(self)@, swaps@) == old(self)@);
        }
    }

}

impl PartialEq for Deck {
    /// Two decks are equal when they hold the same cards at the same positions;
    /// decks of different lengths are never equal.
    fn eq(&self, other: &Deck) -> (r: bool) {
        if self.0.len() != other.0.len() {
            return false;
        }
        let mut i: usize = 0;
        while i < self.0.len()
            invariant
                i <= self@.len(),
                self@.len() == other@.len(),
                forall|k: int| 0 <= k < i ==> self@[k] == other@[k],
            decreases self@.len() - i,
        {
            if self.0[i] != other.0[i] {
                return false;
            }
            i += 1;
        }
        assert(self@ =~= other@);
        true
    }
}

impl vstd::std_specs::cmp::PartialEqSpecImpl for Deck {
    open spec fn obeys_eq_spec() -> bool {
        true
    }

    open spec fn eq_spec(&self, other: &Deck) -> bool {
        self@ == other@
    }
}

/// Exchanging two cards keeps the cards of the deck, each as many times as before.
pub proof fn lemma_swap_keeps_cards(cards: Seq<Card>, i: int, j: int)
    requires
        0 <= i < cards.len(),
        0 <= j < cards.len(),
    ensures
        swap_at(cards, i, j).to_multiset() == cards.to_multiset(),
{
    broadcast use vstd::seq_lib::group_to_multiset_ensures;

    if i == j {
        assert(swap_at(cards, i, j) =~= cards);
    } else {
        let t = cards.update(i, cards[j]);
        let u = t.update(j, cards[i]);
        lemma_update_multiset(cards, i, cards[j]);
        lemma_update_multiset(t, j, cards[i]);
        assert(u.to_multiset() =~= cards.to_multiset());
    }
}

/// Replacing one card: the old card leaves the multiset of cards and the new one enters it.
pub proof fn lemma_update_multiset(cards: Seq<Card>, i: int, c: Card)
    requires
        0 <= i < cards.len(),
    ensures
        cards.update(i, c).to_multiset() == cards.to_multiset().remove(cards[i]).insert(c),
{
    broadcast use vstd::seq_lib::group_to_multiset_ensures;
    broadcast use vstd::multiset::group_multiset_axioms;

    let u = cards.update(i, c);
    assert(u.remove(i) =~= cards.remove(i));
    assert(u.to_multiset().count(c) > 0) by {
        assert(u[i] == c);
        assert(u.contains(c));
    }
    assert(u.to_multiset() =~= u.remove(i).to_multiset().insert(c));
}

/// Any sequence of exchanges within the deck keeps its cards, each as many times as before.
pub proof fn lemma_swaps_keep_cards(cards: Seq<Card>, swaps: Seq<(usize, usize)>)
    requires
        swaps_within(swaps, cards.len()),
    ensures
        swapped(cards, swaps).to_multiset() == cards.to_multiset(),
        swapped(cards, swaps).len() == cards.len(),
    decreases swaps.len(),
{
    if swaps.len() > 0 {
        let rest = swaps.drop_last();
        assert(swaps_within(rest, cards.len())) by {
            assert forall|k: int| 0 <= k < rest.len() implies #[trigger] rest[k].0 < cards.len()
                && rest[k].1 < cards.len() by {
                assert(rest[k] == swaps[k]);
            }
        }
        lemma_swaps_keep_cards(cards, rest);
        let (i, j) = swaps.last();
        assert(swaps[swaps.len() - 1] == swaps.last());
        lemma_swap_keeps_cards(swapped(cards, rest), i as int, j as int);
    }
}

/// A fresh deck holds 52 cards, the ace of hearts first and the king of clubs last; each card
/// of value 1 to 13 in each suit occurs in it exactly once, and no other card occurs.
pub proof fn lemma_fresh_deck_has_each_card_once()
    ensures
        canonical_deck().len() == 52,
        canonical_deck()[0] == (Card { suit: Suit::Heart, value: 1 }),
        canonical_deck()[51] == (Card { suit: Suit::Club, value: 13 }),
        forall|c: Card| #[trigger] canonical_deck().to_multiset().count(c) == if c.wf() {
            1nat
        } else {
            0nat
        },
{
    broadcast use vstd::seq_lib::group_to_multiset_ensures;

    let d = canonical_deck();
    assert(d.no_duplicates()) by {
        assert forall|i: int, j: int| 0 <= i < d.len() && 0 <= j < d.len() && i != j implies d[i]
            != d[j] by {
            assert(0 <= i / 13 < 4 && 0 <= j / 13 < 4);
            if d[i] == d[j] {
                assert(suit_group(i / 13) == suit_group(j / 13));
                assert(i / 13 == j / 13);
                assert(i % 13 == j % 13);
            }
        }
    }
    d.lemma_multiset_has_no_duplicates();
    assert forall|c: Card| #[trigger] d.to_multiset().count(c) == if c.wf() {
        1nat
    } else {
        0nat
    } by {
        if c.wf() {
            let i = group_of(c.suit) * 13 + c.value - 1;
            assert(i / 13 == group_of(c.suit) && i % 13 == c.value - 1);
            assert(d[i] == c);
            assert(d.contains(c));
        } else {
            assert(!d.contains(c)) by {
                if d.contains(c) {
                    let i = choose|i: int| 0 <= i < d.len() && d[i] == c;
                    assert(0 <= i % 13 < 13);
                }
            }
        }
    }
}

/// Deck equality is reflexive and symmetric; it fails when the lengths differ, and when the
/// cards at any one position differ.
pub proof fn lemma_deck_eq_laws(a: Deck, b: Deck)
    ensures
        a.eq_spec(&a),
        a.eq_spec(&b) == b.eq_spec(&a),
        a@.len() != b@.len() ==> !a.eq_spec(&b),
        forall|i: int| 0 <= i < a@.len() && 0 <= i < b@.len() && a@[i] != b@[i] ==> !a.eq_spec(&b),
{
}

} // verus!
