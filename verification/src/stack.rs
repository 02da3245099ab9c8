use vstd::prelude::*;

use crate::board::StackType;
use crate::card::Card;
use crate::card::Suit;
use crate::card::spec_is_stackable;

verus! {

/// The move-legality rule, judged against the destination pile `dest`: a
/// tableau pile accepts only a king when empty, else a card one lower than
/// its top and of the opposite color; a foundation accepts only an ace when
/// empty, else a card one higher than its top and of the same suit; the deck,
/// the waste pile and empty space accept nothing.
pub open spec fn spec_is_mov_allowed(dest: Seq<Card>, card: Card, stack_type: StackType) -> bool {
    match stack_type {
        StackType::PILES => if dest.len() == 0 {
            card.value == 13
        } else {
            spec_is_stackable(dest.last(), card)
        },
        StackType::FONDATION => if dest.len() == 0 {
            card.value == 1
        } else {
            dest.last().value == card.value - 1 && dest.last().suit == card.suit
        },
        _ => false,
    }
}

/// An ordered pile of cards; the last element of `stack` is the top of the
/// pile, the first to be removed.
pub struct Stack {
    pub stack: Vec<Card>,
}

impl View for Stack {
    type V = Seq<Card>;

    open spec fn view(&self) -> Seq<Card> {
        self.stack@
    }
}

impl Clone for Stack {
    /// A clone holds exactly the same cards in the same order.
    fn clone(&self) -> (r: Self)
        ensures
            r@ == self@,
    {
        let mut cards: Vec<Card> = Vec::new();
        let mut i: usize = 0;
        while i < self.stack.len()
            invariant
                i <= self.stack@.len(),
                cards@.len() == i,
                forall|j: int| 0 <= j < i ==> cards@[j] == self.stack@[j],
            decreases self.stack@.len() - i,
        {
            cards.push(self.stack[i]);
            i = i + 1;
        }
        assert(cards@ =~= self.stack@);
        Stack { stack: cards }
    }
}

impl Stack {
    /// An empty pile.
    pub fn new() -> (r: Self)
        ensures
            r@ == Seq::<Card>::empty(),
    {
        Stack { stack: Vec::new() }
    }

    /// Replaces the whole pile, bottom to top, by the given cards.
    pub fn set(&mut self, stack: Vec<Card>)
        ensures
            final(self)@ == stack@,
    {
        self.stack = stack;
    }

    /// Reverses the pile in place: the bottom card becomes the top.
    pub fn revert(&mut self)
        ensures
            final(self)@ == old(self)@.reverse(),
    {
        let n = self.stack.len();
        let mut cards: Vec<Card> = Vec::new();
        let mut i: usize = 0;
        while i < n
            invariant
                self@ == old(self)@,
                n == self.stack@.len(),
                i <= n,
                cards@.len() == i,
                forall|j: int| 0 <= j < i ==> cards@[j] == self.stack@[n - 1 - j],
            decreases n - i,
        {
            cards.push(self.stack[n - 1 - i]);
            i = i + 1;
        }
        assert(cards@ =~= old(self)@.reverse());
        self.stack = cards;
    }

    /// Applies `op` to every card, keeping the order; consumes the pile and
    /// returns the transformed one.
    pub fn map<F: Fn(Card) -> Card>(self, op: F) -> (r: Self)
        requires
            forall|i: int| 0 <= i < self@.len() ==> call_requires(op, (self@[i],)),
        ensures
            r@.len() == self@.len(),
            forall|i: int| 0 <= i < self@.len() ==> call_ensures(op, (self@[i],), #[trigger] r@[i]),
    {
        let mut cards: Vec<Card> = Vec::new();
        let n = self.stack.len();
        let mut i: usize = 0;
        while i < n
            invariant
                n == self.stack@.len(),
                i <= n,
                cards@.len() == i,
                forall|k: int| 0 <= k < n ==> call_requires(op, (self@[k],)),
                forall|k: int| 0 <= k < i ==> call_ensures(op, (self@[k],), #[trigger] cards@[k]),
            decreases n - i,
        {
            assert(call_requires(op, (self@[i as int],)));
            let c = op(self.stack[i]);
            cards.push(c);
            i = i + 1;
        }
        let mut ret = Stack::new();
        ret.set(cards);
        ret
    }

    /// Removes and returns the top card; `None` when the pile is empty.
    pub fn pop(&mut self) -> (r: Option<Card>)
        ensures
            old(self)@.len() > 0 ==> r == Some(old(self)@.last()) && final(self)@ == old(
                self,
            )@.drop_last(),
            old(self)@.len() == 0 ==> r == None::<Card> && final(self)@ == old(self)@,
    {
        self.stack.pop()
    }

    /// Lays a card on top of the pile.
    pub fn push(&mut self, item: Card)
        ensures
            final(self)@ == old(self)@.push(item),
    {
        self.stack.push(item)
    }

    pub fn is_empty(&self) -> (r: bool)
        ensures
            r == (self@.len() == 0),
    {
        self.stack.is_empty()
    }

    pub fn length(&self) -> (r: usize)
        ensures
            r == self@.len(),
    {
        self.stack.len()
    }

    /// A look at the top card without removing it.
    pub fn peek(&self) -> (r: Option<&Card>)
        ensures
            self@.len() > 0 ==> (r matches Some(c) && *c == self@.last()),
            self@.len() == 0 ==> r is None,
    {
        if self.stack.len() == 0 {
            None
        } else {
            Some(&self.stack[self.stack.len() - 1])
        }
    }

    /// Rearranges the pile into a random order; the same cards remain, in the
    /// same numbers.
    pub fn shuffle(&mut self)
        ensures
            final(self)@.to_multiset() == old(self)@.to_multiset(),
            final(self)@.len() == old(self)@.len(),
    {
        let mut rng = fresh_rng();
        shuffle_cards(&mut self.stack, &mut rng);
        proof {
            old(self)@.to_multiset_ensures();
            self@.to_multiset_ensures();
        }
    }

    /// Whether `card` may be laid on this pile when the pile plays the given
    /// role.
    pub fn is_mov_allowed(&self, card: Card, stack_type: StackType) -> (r: bool)
        ensures
            r == spec_is_mov_allowed(self@, card, stack_type),
    {
        match stack_type {
            StackType::PILES => {
                let card_stack = self.peek();
                if card_stack.is_none() {
                    return card.value == 13;
                }
                Card::is_stackable(*card_stack.unwrap(), card)
            },
            StackType::FONDATION => {
                let card_stack = self.peek();
                match card_stack {
                    None => card.value == 1,
                    Some(c) => c.value as i32 == card.value as i32 - 1 && c.suit == card.suit,
                }
            },
            _ => false,
        }
    }

    /// A snapshot of the pile, bottom to top.
    pub fn as_vec(&self) -> (r: Vec<Card>)
        ensures
            r@ == self@,
    {
        let copy = self.clone();
        copy.stack
    }
}

/// Declares rand's ThreadRng (rand 0.8) so a handle to it can pass through
/// verified code; the handle stays opaque.
#[verifier::external_type_specification]
#[verifier::external_body]
pub struct ExThreadRng(rand::rngs::ThreadRng);

/// Relies on rand::thread_rng (rand 0.8): it returns a handle to the
/// thread-local random generator; nothing is assumed of the handle.
#[verifier::external_body]
fn fresh_rng() -> rand::rngs::ThreadRng {
    rand::thread_rng()
}

/// Relies on rand's SliceRandom::shuffle (rand 0.8): it permutes the slice in
/// place by swapping elements, so the cards and their multiplicities are
/// unchanged; the resulting order is not specified.
#[verifier::external_body]
fn shuffle_cards(cards: &mut Vec<Card>, rng: &mut rand::rngs::ThreadRng)
    ensures
        final(cards)@.to_multiset() == old(cards)@.to_multiset(),
{
    rand::seq::SliceRandom::shuffle(cards.as_mut_slice(), rng);
}

/// The thirteen cards of one suit, ace up to king, all face down.
pub open spec fn spec_suit_run(s: Suit) -> Seq<Card> {
    Seq::new(13, |i: int| Card { value: (i + 1) as i16, suit: s, known: false })
}

/// The 52 cards of a fresh, unshuffled deck: clubs, diamonds, spades, hearts,
/// each running ace up to king, all face down.
pub open spec fn spec_standard_deck() -> Seq<Card> {
    spec_suit_run(Suit::CLUB) + spec_suit_run(Suit::DIAMOND) + spec_suit_run(Suit::SPADE)
        + spec_suit_run(Suit::HEART)
}

/// Pushes the thirteen cards of one suit, ace first, onto the pile.
fn push_suit_run(deck: &mut Stack, s: Suit)
    ensures
        final(deck)@ == old(deck)@ + spec_suit_run(s),
{
    let mut v: i16 = 1;
    while v < 14
        invariant
            1 <= v <= 14,
            deck@ == old(deck)@ + spec_suit_run(s).subrange(0, v - 1),
        decreases 14 - v,
    {
        deck.push(Card { value: v, suit: s, known: false });
        assert(spec_suit_run(s).subrange(0, v as int) =~= spec_suit_run(s).subrange(
            0,
            v - 1,
        ).push(Card { value: v, suit: s, known: false }));
        v = v + 1;
    }
    assert(spec_suit_run(s).subrange(0, 13) =~= spec_suit_run(s));
}

/// The standard deck holds 52 cards: one for each value-and-suit pair, none
/// twice, all face down.
pub proof fn lemma_standard_deck_complete()
    ensures
        spec_standard_deck().len() == 52,
        spec_standard_deck().no_duplicates(),
        forall|c: Card|
            #[trigger] spec_standard_deck().contains(c) <==> (1 <= c.value <= 13 && !c.known),
{
    let d = spec_standard_deck();
    assert forall|i: int, j: int| 0 <= i < j < d.len() implies d[i] != d[j] by {
        if i / 13 == j / 13 {
            assert(d[i].value != d[j].value);
        } else {
            assert(d[i].suit != d[j].suit);
        }
    }
    assert forall|c: Card| 1 <= c.value <= 13 && !c.known implies #[trigger] d.contains(c) by {
        let su: int = match c.suit {
            Suit::CLUB => 0,
            Suit::DIAMOND => 1,
            Suit::SPADE => 2,
            Suit::HEART => 3,
        };
        let idx = su * 13 + c.value - 1;
        assert(d[idx] == c);
    }
    assert forall|c: Card| #[trigger] d.contains(c) implies 1 <= c.value <= 13 && !c.known by {
        let i = choose|i: int| 0 <= i < d.len() && d[i] == c;
        assert(d[i] == c);
    }
}

/// Any arrangement of cards with the same multiset as the standard deck
/// holds 52 cards, no card twice, every value-and-suit pair exactly once,
/// all of them face down.
pub proof fn lemma_full_deck_arrangement(cards: Seq<Card>)
    requires
        cards.to_multiset() == spec_standard_deck().to_multiset(),
    ensures
        cards.len() == 52,
        cards.no_duplicates(),
        forall|c: Card| #[trigger] cards.contains(c) <==> (1 <= c.value <= 13 && !c.known),
{
    broadcast use vstd::seq_lib::group_to_multiset_ensures;

    lemma_standard_deck_complete();
    let d = spec_standard_deck();
    d.lemma_multiset_has_no_duplicates();
    assert(cards.len() == cards.to_multiset().len());
    assert(d.len() == d.to_multiset().len());
    assert forall|c: Card| #[trigger] cards.contains(c) implies (1 <= c.value <= 13
        && !c.known) by {
        assert(d.to_multiset().count(c) > 0);
        assert(d.contains(c));
    }
    assert forall|c: Card| 1 <= c.value <= 13 && !c.known implies #[trigger] cards.contains(c) by {
        assert(d.contains(c));
        assert(cards.to_multiset().count(c) > 0);
    }
    assert forall|x: Card| cards.to_multiset().contains(x) implies cards.to_multiset().count(x)
        == 1 by {
        assert(d.to_multiset().contains(x));
    }
    cards.lemma_multiset_has_no_duplicates_conv();
}

/// Builds the standard 52-card deck, unshuffled and face down.
pub fn create_deck() -> (deck: Stack)
    ensures
        deck@ == spec_standard_deck(),
{
    let mut deck = Stack::new();
    push_suit_run(&mut deck, Suit::CLUB);
    push_suit_run(&mut deck, Suit::DIAMOND);
    push_suit_run(&mut deck, Suit::SPADE);
    push_suit_run(&mut deck, Suit::HEART);
    assert(deck@ =~= spec_standard_deck());
    deck
}

} // verus!
