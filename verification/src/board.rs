use vstd::prelude::*;
use vstd::pervasive::VecAdditionalExecFns;

use crate::card::Card;
use crate::stack::Stack;
use crate::stack::create_deck;
use crate::stack::lemma_standard_deck_complete;
use crate::stack::spec_is_mov_allowed;
use crate::stack::spec_standard_deck;

verus! {

/// How many foundation piles a board has.
pub const NB_FOND: usize = 4;

/// How many tableau piles a board has.
pub const NB_PILES: usize = 7;

/// The kind of pile a click lands on; `NONE` is a click on empty space.
#[allow(non_camel_case_types)]
#[derive(PartialEq, Eq, Structural, Clone, Copy, Debug)]
pub enum StackType {
    DECK,
    PLAYING,
    FONDATION,
    PILES,
    NONE,
}

/// A classified player input: which kind of pile was hit, which pile of that
/// kind (`index`), and - within a tableau pile - which card of the pile
/// (`card`).
#[derive(Clone, Copy, PartialEq, Eq, Structural, Debug)]
pub struct Click {
    pub stack_type: StackType,
    pub index: usize,
    pub card: usize,
}

/// The whole playing field: the face-down deck, the waste pile (`playing`),
/// four foundations, seven tableau piles, and the pending selection of the
/// two-click protocol.
pub struct Board {
    deck: Stack,
    playing: Stack,
    fondation: Vec<Stack>,
    piles: Vec<Stack>,
    click: Click,
}

/// A board reduced to mathematics: each pile a sequence of cards, plus the
/// pending selection.
#[verifier::ext_equal]
pub ghost struct BoardV {
    pub deck: Seq<Card>,
    pub playing: Seq<Card>,
    pub fondation: Seq<Seq<Card>>,
    pub piles: Seq<Seq<Card>>,
    pub click: Click,
}

impl View for Board {
    type V = BoardV;

    closed spec fn view(&self) -> BoardV {
        BoardV {
            deck: self.deck@,
            playing: self.playing@,
            fondation: self.fondation@.map_values(|s: Stack| s@),
            piles: self.piles@.map_values(|s: Stack| s@),
            click: self.click,
        }
    }
}

/// The click on empty space; also the reset state of the pending selection.
pub open spec fn spec_none_click() -> Click {
    Click { stack_type: StackType::NONE, index: 0, card: 0 }
}

/// A click names a pile that exists on the board.
pub open spec fn spec_click_wf(c: Click) -> bool {
    &&& (c.stack_type is FONDATION ==> c.index < NB_FOND)
    &&& (c.stack_type is PILES ==> c.index < NB_PILES)
}

/// A well-formed board: the right number of piles, and a pending selection
/// that names an existing pile and is never the deck.
pub open spec fn spec_board_wf(b: BoardV) -> bool {
    &&& b.fondation.len() == NB_FOND
    &&& b.piles.len() == NB_PILES
    &&& spec_click_wf(b.click)
    &&& !(b.click.stack_type is DECK)
}

/// The pile a click names, read off the board.
pub open spec fn spec_pile_at(b: BoardV, c: Click) -> Seq<Card> {
    match c.stack_type {
        StackType::PLAYING => b.playing,
        StackType::PILES => b.piles[c.index as int],
        StackType::FONDATION => b.fondation[c.index as int],
        _ => b.playing,
    }
}

/// The board with the pile a click names replaced by `s`.
pub open spec fn spec_set_pile(b: BoardV, c: Click, s: Seq<Card>) -> BoardV {
    match c.stack_type {
        StackType::PLAYING => BoardV { playing: s, ..b },
        StackType::PILES => BoardV { piles: b.piles.update(c.index as int, s), ..b },
        StackType::FONDATION => BoardV { fondation: b.fondation.update(c.index as int, s), ..b },
        _ => BoardV { playing: s, ..b },
    }
}

/// The pile with its top card turned face up; an empty pile is unchanged.
pub open spec fn spec_reveal_top(s: Seq<Card>) -> Seq<Card> {
    if s.len() == 0 {
        s
    } else {
        s.update(s.len() - 1, Card { value: s.last().value, suit: s.last().suit, known: true })
    }
}

/// The board after the normalization pass: the top of the waste pile and of
/// every tableau pile lies face up.
pub open spec fn spec_reveal_tops(b: BoardV) -> BoardV {
    BoardV {
        playing: spec_reveal_top(b.playing),
        piles: Seq::new(b.piles.len(), |i: int| spec_reveal_top(b.piles[i])),
        ..b
    }
}

/// One card, forced face down.
pub open spec fn spec_face_down(c: Card) -> Card {
    Card { value: c.value, suit: c.suit, known: false }
}

/// The waste pile recycled into a new deck: every card face down and the
/// order reversed, so that renewed draws repeat the old draw order.
pub open spec fn spec_recycle(playing: Seq<Card>) -> Seq<Card> {
    playing.map_values(|c: Card| spec_face_down(c)).reverse()
}

/// One card turned face down, as the recycle pass leaves it.
fn face_down(c: Card) -> (r: Card)
    ensures
        r == spec_face_down(c),
{
    Card { value: c.value, suit: c.suit, known: false }
}

/// A row of cards with every face hidden: the cards' identities alone, with
/// visibility normalized away.
pub open spec fn spec_concealed(s: Seq<Card>) -> Seq<Card> {
    s.map_values(|c: Card| spec_face_down(c))
}

/// The top of the waste pile and of every non-empty tableau pile lies face
/// up: the state every reachable board is in once the reveal pass has run.
pub open spec fn spec_tops_revealed(b: BoardV) -> bool {
    &&& (b.playing.len() > 0 ==> b.playing.last().known)
    &&& forall|i: int|
        0 <= i < b.piles.len() && b.piles[i].len() > 0 ==> (#[trigger] b.piles[i]).last().known
}

/// Revealing the top of a pile whose top already lies face up, or of an empty
/// pile, changes nothing.
pub proof fn lemma_reveal_noop(s: Seq<Card>)
    requires
        s.len() > 0 ==> s.last().known,
    ensures
        spec_reveal_top(s) == s,
{
    if s.len() > 0 {
        assert(spec_reveal_top(s) =~= s);
    }
}

/// Concealing distributes over laying one row of cards after another.
proof fn lemma_concealed_add(a: Seq<Card>, b: Seq<Card>)
    ensures
        spec_concealed(a + b) == spec_concealed(a) + spec_concealed(b),
{
    assert(spec_concealed(a + b) =~= spec_concealed(a) + spec_concealed(b));
}

/// Concealing undoes a reveal of the top card.
proof fn lemma_concealed_reveal(s: Seq<Card>)
    ensures
        spec_concealed(spec_reveal_top(s)) == spec_concealed(s),
{
    assert(spec_concealed(spec_reveal_top(s)) =~= spec_concealed(s));
}

/// A fully face-down row of cards is unchanged by concealing.
proof fn lemma_concealed_identity(s: Seq<Card>)
    requires
        forall|j: int| 0 <= j < s.len() ==> !(#[trigger] s[j]).known,
    ensures
        spec_concealed(s) == s,
{
    assert(spec_concealed(s) =~= s);
}

/// Revealing every pile's top and then concealing the whole row restores the
/// row: the reveal pass touches visibility only, never a card's identity.
proof fn lemma_concealed_joined_reveal(p: Seq<Seq<Card>>)
    ensures
        spec_concealed(spec_joined(Seq::new(p.len(), |i: int| spec_reveal_top(p[i]))))
            == spec_concealed(spec_joined(p)),
    decreases p.len(),
{
    let q = Seq::new(p.len(), |i: int| spec_reveal_top(p[i]));
    if p.len() == 0 {
        assert(q =~= Seq::<Seq<Card>>::empty());
    } else {
        let p0 = p.drop_last();
        let q0 = Seq::new(p0.len(), |i: int| spec_reveal_top(p0[i]));
        assert(q.drop_last() =~~= q0);
        lemma_concealed_joined_reveal(p0);
        lemma_concealed_add(spec_joined(q0), q.last());
        lemma_concealed_add(spec_joined(p0), p.last());
        lemma_concealed_reveal(p.last());
        assert(q.last() == spec_reveal_top(p.last()));
    }
}

/// All cards of a row of piles, pile after pile.
pub open spec fn spec_joined(piles: Seq<Seq<Card>>) -> Seq<Card>
    decreases piles.len(),
{
    if piles.len() == 0 {
        Seq::empty()
    } else {
        spec_joined(piles.drop_last()) + piles.last()
    }
}

/// Every card on the board, over all piles.
pub open spec fn spec_board_cards(b: BoardV) -> Seq<Card> {
    b.deck + b.playing + spec_joined(b.fondation) + spec_joined(b.piles)
}

/// How many cards the triangular deal puts into the first `n` tableau piles:
/// pile `i` receives `i + 1` cards.
pub open spec fn spec_tri(n: nat) -> nat
    decreases n,
{
    if n == 0 {
        0
    } else {
        spec_tri((n - 1) as nat) + n
    }
}

/// The deal never grows: earlier piles take fewer cards in total.
proof fn lemma_tri_le(n: nat, m: nat)
    requires
        n <= m,
    ensures
        spec_tri(n) <= spec_tri(m),
    decreases m,
{
    if n < m {
        lemma_tri_le(n, (m - 1) as nat);
    }
}

/// The effective offset of the grabbed card within the source pile: within a
/// tableau pile the classifier names the card; everywhere else the top card
/// moves.
pub open spec fn spec_source_offset(b: BoardV, p: Click) -> int {
    if p.stack_type is PILES {
        p.card as int
    } else {
        spec_pile_at(b, p).len() - 1
    }
}

/// Whether the pending selection `p` and the target click `c` name a move the
/// rules allow: the grabbed card exists, the target is another pile, and the
/// bottom card of the grabbed run may be laid on the target.
pub open spec fn spec_move_legal(b: BoardV, p: Click, c: Click) -> bool {
    let src = spec_pile_at(b, p);
    let off = spec_source_offset(b, p);
    &&& 0 <= off < src.len()
    &&& !(p.stack_type == c.stack_type && p.index == c.index)
    &&& spec_is_mov_allowed(spec_pile_at(b, c), src[off], c.stack_type)
}

/// The board after the run above `p`'s offset is carried over onto the pile
/// `c` names, its order kept.
pub open spec fn spec_transfer(b: BoardV, p: Click, c: Click) -> BoardV {
    let src = spec_pile_at(b, p);
    let off = spec_source_offset(b, p);
    let dst = spec_pile_at(b, c);
    spec_set_pile(
        spec_set_pile(b, c, dst + src.subrange(off, src.len() as int)),
        p,
        src.subrange(0, off),
    )
}

/// One step of the click-driven state machine: a deck click draws a card, or
/// recycles the waste pile when the deck is out, and always clears the
/// selection; with no pending selection a click is remembered; a click on
/// empty space or on the waste pile replaces the selection; a click on a
/// foundation or a tableau pile resolves the pending selection into a move,
/// carried out only when the rules allow it, and clears the selection either
/// way.
pub open spec fn spec_handle_click(pre: BoardV, c: Click) -> BoardV {
    if c.stack_type is DECK {
        if pre.deck.len() > 0 {
            spec_reveal_tops(
                BoardV {
                    deck: pre.deck.drop_last(),
                    playing: pre.playing.push(pre.deck.last()),
                    click: spec_none_click(),
                    ..pre
                },
            )
        } else {
            spec_reveal_tops(
                BoardV {
                    deck: spec_recycle(pre.playing),
                    playing: Seq::empty(),
                    click: spec_none_click(),
                    ..pre
                },
            )
        }
    } else if pre.click.stack_type is NONE {
        BoardV { click: c, ..pre }
    } else if c.stack_type is NONE {
        BoardV { click: c, ..pre }
    } else if c.stack_type is PLAYING {
        BoardV { click: c, ..pre }
    } else if spec_move_legal(pre, pre.click, c) {
        BoardV { click: spec_none_click(), ..spec_reveal_tops(spec_transfer(pre, pre.click, c)) }
    } else {
        BoardV { click: spec_none_click(), ..pre }
    }
}

/// The deal leaves a pile fully face down; the reveal pass then turns exactly
/// the top card of a non-empty pile face up and touches nothing else.
pub proof fn lemma_reveal_after_deal(p: Seq<Card>)
    requires
        forall|j: int| 0 <= j < p.len() ==> !(#[trigger] p[j]).known,
    ensures
        spec_reveal_top(p).len() == p.len(),
        p.len() > 0 ==> spec_reveal_top(p).last().known,
        p.len() > 0 ==> spec_reveal_top(p).last().value == p.last().value && spec_reveal_top(
            p,
        ).last().suit == p.last().suit,
        forall|j: int| 0 <= j < p.len() - 1 ==> !(#[trigger] spec_reveal_top(p)[j]).known,
{
}

/// Recycling the waste pile turns every card face down and reverses the
/// order: the card that entered the waste pile k-th is again the k-th card
/// to be drawn from the rebuilt deck.
pub proof fn lemma_recycle_order(s: Seq<Card>, k: int)
    requires
        0 <= k < s.len(),
    ensures
        spec_recycle(s).len() == s.len(),
        spec_recycle(s)[s.len() - 1 - k] == spec_face_down(s[k]),
        forall|j: int| 0 <= j < s.len() ==> !(#[trigger] spec_recycle(s)[j]).known,
{
}

/// Once a fresh deal - all piles face down and none empty - is normalized,
/// exactly the top card of every tableau pile lies face up.
pub proof fn lemma_deal_shows_only_tops(b: BoardV)
    requires
        b.piles.len() == NB_PILES,
        forall|i: int, k: int|
            0 <= i < NB_PILES && 0 <= k < b.piles[i].len() ==> !(#[trigger] b.piles[i][k]).known,
        forall|i: int| 0 <= i < NB_PILES ==> (#[trigger] b.piles[i]).len() > 0,
    ensures
        forall|i: int|
            0 <= i < NB_PILES ==> (#[trigger] spec_reveal_tops(b).piles[i]).last().known,
        forall|i: int, k: int|
            0 <= i < NB_PILES && 0 <= k < spec_reveal_tops(b).piles[i].len() - 1 ==> !(
            #[trigger] spec_reveal_tops(b).piles[i][k]).known,
{
}

/// Drawing from a non-empty deck moves exactly the deck's top card, now face
/// up, onto the waste pile and clears the selection; on a board whose pile
/// tops are already face up, nothing else changes at all.
pub proof fn lemma_deck_draw(pre: BoardV, c: Click)
    requires
        spec_tops_revealed(pre),
        c.stack_type is DECK,
        pre.deck.len() > 0,
    ensures
        ({
            let post = spec_handle_click(pre, c);
            &&& post.deck == pre.deck.drop_last()
            &&& post.playing == pre.playing.push(
                Card { value: pre.deck.last().value, suit: pre.deck.last().suit, known: true },
            )
            &&& post.piles == pre.piles
            &&& post.fondation == pre.fondation
            &&& post.click == spec_none_click()
        }),
{
    let post = spec_handle_click(pre, c);
    let drawn = pre.deck.last();
    assert(spec_reveal_top(pre.playing.push(drawn)) =~= pre.playing.push(
        Card { value: drawn.value, suit: drawn.suit, known: true },
    ));
    assert forall|i: int| 0 <= i < pre.piles.len() implies #[trigger] post.piles[i]
        == pre.piles[i] by {
        lemma_reveal_noop(pre.piles[i]);
    }
    assert(post.piles =~~= pre.piles);
}

/// A deck click on an empty deck recycles the waste pile: the rebuilt deck is
/// the waste reversed with every card face down, the waste pile empties and
/// the selection clears; on a board whose pile tops are already face up,
/// nothing else changes at all.
pub proof fn lemma_deck_recycle(pre: BoardV, c: Click)
    requires
        spec_tops_revealed(pre),
        c.stack_type is DECK,
        pre.deck.len() == 0,
    ensures
        ({
            let post = spec_handle_click(pre, c);
            &&& post.deck == spec_recycle(pre.playing)
            &&& post.playing == Seq::<Card>::empty()
            &&& post.piles == pre.piles
            &&& post.fondation == pre.fondation
            &&& post.click == spec_none_click()
        }),
{
    let post = spec_handle_click(pre, c);
    assert(spec_reveal_top(Seq::<Card>::empty()) =~= Seq::<Card>::empty());
    assert forall|i: int| 0 <= i < pre.piles.len() implies #[trigger] post.piles[i]
        == pre.piles[i] by {
        lemma_reveal_noop(pre.piles[i]);
    }
    assert(post.piles =~~= pre.piles);
}

/// An attempted move that the rules refuse leaves every pile exactly as it
/// was - the same cards, the same order, the same visibility - and only
/// clears the pending selection.
pub proof fn lemma_illegal_move_atomic(pre: BoardV, c: Click)
    requires
        !(pre.click.stack_type is NONE),
        !(c.stack_type is DECK),
        !(c.stack_type is NONE),
        !(c.stack_type is PLAYING),
        !spec_move_legal(pre, pre.click, c),
    ensures
        spec_handle_click(pre, c) == (BoardV { click: spec_none_click(), ..pre }),
{
    assert(spec_handle_click(pre, c) =~~= BoardV { click: spec_none_click(), ..pre });
}

/// The two-click protocol on tableau piles: selecting the top card of pile
/// `a`, then a pile `b` whose top accepts it, moves exactly that card onto
/// `b` and turns it face up; `a` loses one card, `b` gains one, every other
/// pile keeps its cards, and the board is idle again.
pub proof fn lemma_two_click_single_transfer(pre: BoardV, a: Click, b: Click)
    requires
        spec_board_wf(pre),
        pre.click.stack_type is NONE,
        a.stack_type is PILES,
        a.index < NB_PILES,
        pre.piles[a.index as int].len() > 0,
        a.card == pre.piles[a.index as int].len() - 1,
        b.stack_type is PILES,
        b.index < NB_PILES,
        b.index != a.index,
        spec_is_mov_allowed(
            pre.piles[b.index as int],
            pre.piles[a.index as int].last(),
            b.stack_type,
        ),
    ensures
        ({
            let mid = spec_handle_click(pre, a);
            let post = spec_handle_click(mid, b);
            &&& mid == (BoardV { click: a, ..pre })
            &&& post.click == spec_none_click()
            &&& post.piles[a.index as int] == spec_reveal_top(
                pre.piles[a.index as int].drop_last(),
            )
            &&& post.piles[a.index as int].len() == pre.piles[a.index as int].len() - 1
            &&& post.piles[b.index as int] == spec_reveal_top(
                pre.piles[b.index as int].push(pre.piles[a.index as int].last()),
            )
            &&& post.piles[b.index as int].len() == pre.piles[b.index as int].len() + 1
            &&& forall|j: int|
                0 <= j < NB_PILES && j != a.index && j != b.index ==> post.piles[j]
                    == spec_reveal_top(#[trigger] pre.piles[j])
            &&& post.playing == spec_reveal_top(pre.playing)
            &&& post.deck == pre.deck
            &&& post.fondation == pre.fondation
            &&& spec_tops_revealed(pre) ==> post.piles[b.index as int] == pre.piles[b.index as int].push(
                Card {
                    value: pre.piles[a.index as int].last().value,
                    suit: pre.piles[a.index as int].last().suit,
                    known: true,
                },
            )
            &&& spec_tops_revealed(pre) ==> (forall|j: int|
                0 <= j < NB_PILES && j != a.index && j != b.index ==> post.piles[j]
                    == #[trigger] pre.piles[j])
            &&& spec_tops_revealed(pre) ==> post.playing == pre.playing
        }),
{
    let mid = spec_handle_click(pre, a);
    assert(mid =~~= BoardV { click: a, ..pre });
    let src = pre.piles[a.index as int];
    let dst = pre.piles[b.index as int];
    let off = src.len() - 1;
    assert(spec_move_legal(mid, a, b));
    assert(src.subrange(0, off) =~= src.drop_last());
    assert(dst + src.subrange(off, src.len() as int) =~= dst.push(src.last()));
    if spec_tops_revealed(pre) {
        let post = spec_handle_click(mid, b);
        assert(spec_reveal_top(dst.push(src.last())) =~= dst.push(
            Card { value: src.last().value, suit: src.last().suit, known: true },
        ));
        assert forall|j: int| 0 <= j < NB_PILES && j != a.index && j != b.index implies post.piles[j]
            == #[trigger] pre.piles[j] by {
            lemma_reveal_noop(pre.piles[j]);
        }
        lemma_reveal_noop(pre.playing);
    }
}

/// A row of piles that all hold nothing holds no cards.
proof fn lemma_joined_all_empty(p: Seq<Seq<Card>>)
    requires
        forall|j: int| 0 <= j < p.len() ==> (#[trigger] p[j]).len() == 0,
    ensures
        spec_joined(p).len() == 0,
    decreases p.len(),
{
    if p.len() > 0 {
        lemma_joined_all_empty(p.drop_last());
        assert(p.last() =~= Seq::<Card>::empty());
    }
}

impl Board {
    /// A freshly dealt game: the 52 cards of a standard deck shuffled, then
    /// tableau pile `i` dealt `i + 1` cards off the top and its top card
    /// turned face up, the remaining 24 left in the deck face down, the
    /// foundations and the waste pile empty, and no pending selection. Once
    /// visibility is concealed again, the cards on the board are exactly the
    /// standard deck's.
    pub fn new() -> (b: Board)
        ensures
            spec_board_wf(b@),
            spec_tops_revealed(b@),
            b@.click == spec_none_click(),
            b@.playing == Seq::<Card>::empty(),
            forall|i: int| 0 <= i < NB_FOND ==> (#[trigger] b@.fondation[i]).len() == 0,
            b@.deck.len() == 24,
            forall|k: int| 0 <= k < b@.deck.len() ==> !(#[trigger] b@.deck[k]).known,
            forall|i: int| 0 <= i < NB_PILES ==> (#[trigger] b@.piles[i]).len() == i + 1,
            forall|i: int| 0 <= i < NB_PILES ==> (#[trigger] b@.piles[i]).last().known,
            forall|i: int, k: int|
                0 <= i < NB_PILES && 0 <= k < b@.piles[i].len() - 1 ==> !(
                #[trigger] b@.piles[i][k]).known,
            spec_concealed(spec_board_cards(b@)).to_multiset() == spec_standard_deck().to_multiset(),
    {
        let mut deck = create_deck();
        deck.shuffle();
        proof {
            broadcast use vstd::seq_lib::group_to_multiset_ensures;

            lemma_standard_deck_complete();
            assert forall|k: int| 0 <= k < deck@.len() implies !(#[trigger] deck@[k]).known by {
                assert(deck@.contains(deck@[k]));
                assert(spec_standard_deck().to_multiset().count(deck@[k]) > 0);
                assert(spec_standard_deck().contains(deck@[k]));
            }
        }
        let playing = Stack::new();
        let mut fondation: Vec<Stack> = Vec::new();
        let mut f: usize = 0;
        while f < NB_FOND
            invariant
                f <= NB_FOND,
                fondation@.len() == f,
                forall|j: int| 0 <= j < f ==> (#[trigger] fondation@[j])@.len() == 0,
            decreases NB_FOND - f,
        {
            fondation.push(Stack::new());
            f = f + 1;
        }
        let ghost full = deck@;
        let mut piles: Vec<Stack> = Vec::new();
        proof {
            assert(piles@.map_values(|s: Stack| s@) =~~= Seq::<Seq<Card>>::empty());
            assert(deck@ + spec_joined(piles@.map_values(|s: Stack| s@)) =~= full);
        }
        let mut i: usize = 0;
        while i < NB_PILES
            invariant
                i <= NB_PILES,
                piles@.len() == i,
                full.len() == 52,
                forall|k: int| 0 <= k < full.len() ==> !(#[trigger] full[k]).known,
                spec_tri(i as nat) <= 28,
                deck@ == full.subrange(0, 52 - spec_tri(i as nat)),
                forall|j: int| 0 <= j < i ==> (#[trigger] piles@[j])@.len() == j + 1,
                forall|j: int, k: int|
                    0 <= j < i && 0 <= k < piles@[j]@.len() ==> !(#[trigger] piles@[j]@[k]).known,
                (deck@ + spec_joined(piles@.map_values(|s: Stack| s@))).to_multiset()
                    == spec_standard_deck().to_multiset(),
            decreases NB_PILES - i,
        {
            let ghost d0 = deck@;
            let ghost piles0 = piles@;
            proof {
                reveal_with_fuel(spec_tri, 9);
                lemma_tri_le((i + 1) as nat, 7);
                assert(spec_tri(7) == 28);
            }
            let mut pile = Stack::new();
            Board::mov(&mut deck, &mut pile, i + 1);
            proof {
                let moved = d0.subrange(d0.len() - (i + 1), d0.len() as int);
                assert(pile@ =~= moved);
                assert(d0 =~= deck@ + moved);
                assert(deck@ =~= full.subrange(0, 52 - spec_tri((i + 1) as nat)));
                assert forall|k: int| 0 <= k < pile@.len() implies !pile@[k].known by {
                    assert(pile@[k] == full[52 - spec_tri(i as nat) - (i + 1) + k]);
                }
            }
            piles.push(pile);
            proof {
                let moved = d0.subrange(d0.len() - (i + 1), d0.len() as int);
                let fv0 = piles0.map_values(|s: Stack| s@);
                let fv1 = piles@.map_values(|s: Stack| s@);
                assert(fv1.drop_last() =~~= fv0);
                assert(fv1.last() == pile@);
                assert(spec_joined(fv1) == spec_joined(fv0) + pile@);
                vstd::seq_lib::lemma_multiset_commutative(deck@, spec_joined(fv1));
                vstd::seq_lib::lemma_multiset_commutative(spec_joined(fv0), pile@);
                vstd::seq_lib::lemma_multiset_commutative(deck@, moved);
                vstd::seq_lib::lemma_multiset_commutative(d0, spec_joined(fv0));
                assert(d0.to_multiset() == (deck@ + moved).to_multiset());
                assert((deck@ + spec_joined(fv1)).to_multiset() =~= spec_standard_deck().to_multiset());
            }
            i = i + 1;
        }
        let mut b = Board {
            deck,
            playing,
            fondation,
            piles,
            click: Click { stack_type: StackType::NONE, index: 0, card: 0 },
        };
        let ghost v0 = b@;
        let ghost cards0 = v0.deck + spec_joined(v0.piles);
        proof {
            broadcast use vstd::seq_lib::group_to_multiset_ensures;

            reveal_with_fuel(spec_tri, 9);
            assert(spec_tri(7) == 28);
            lemma_standard_deck_complete();
            lemma_joined_all_empty(v0.fondation);
            assert(spec_joined(v0.fondation) =~= Seq::<Card>::empty());
            assert(spec_board_cards(v0) =~= cards0);
            assert(cards0 == deck@ + spec_joined(piles@.map_values(|s: Stack| s@)));
            // every card on the fresh board is a standard-deck card, so it
            // lies face down and concealing changes nothing
            assert forall|j: int| 0 <= j < cards0.len() implies !(#[trigger] cards0[j]).known by {
                assert(cards0.contains(cards0[j]));
                assert(spec_standard_deck().to_multiset().count(cards0[j]) > 0);
                assert(spec_standard_deck().contains(cards0[j]));
            }
            lemma_concealed_identity(cards0);
        }
        // the deal is done; show the top card of every tableau pile
        b.update_known();
        proof {
            let q = Seq::new(v0.piles.len(), |i: int| spec_reveal_top(v0.piles[i]));
            assert(b@.piles == q);
            assert(b@.playing =~= Seq::<Card>::empty());
            lemma_joined_all_empty(b@.fondation);
            assert(spec_joined(b@.fondation) =~= Seq::<Card>::empty());
            assert(spec_board_cards(b@) =~= v0.deck + spec_joined(q));
            lemma_concealed_add(v0.deck, spec_joined(q));
            lemma_concealed_joined_reveal(v0.piles);
            lemma_concealed_add(v0.deck, spec_joined(v0.piles));
            assert(spec_concealed(spec_board_cards(b@)) == cards0);
        }
        b
    }

    /// The face-down drawing pile.
    pub fn get_deck(&self) -> (r: &Stack)
        ensures
            r@ == self@.deck,
    {
        &self.deck
    }

    /// The waste pile, where drawn cards land face up.
    pub fn get_playing(&self) -> (r: &Stack)
        ensures
            r@ == self@.playing,
    {
        &self.playing
    }

    /// Foundation pile `i`.
    pub fn get_fondation(&self, i: usize) -> (r: &Stack)
        requires
            i < NB_FOND,
            spec_board_wf(self@),
        ensures
            r@ == self@.fondation[i as int],
    {
        &self.fondation[i]
    }

    /// Tableau pile `i`.
    pub fn get_pile(&self, i: usize) -> (r: &Stack)
        requires
            i < NB_PILES,
            spec_board_wf(self@),
        ensures
            r@ == self@.piles[i as int],
    {
        &self.piles[i]
    }

    /// Moves the top `size` cards of `from` onto `to`, keeping their relative
    /// order.
    fn mov(from: &mut Stack, to: &mut Stack, size: usize)
        requires
            size <= old(from)@.len(),
        ensures
            final(from)@ == old(from)@.subrange(0, old(from)@.len() - size),
            final(to)@ == old(to)@ + old(from)@.subrange(
                old(from)@.len() - size,
                old(from)@.len() as int,
            ),
    {
        let ghost l = old(from)@.len() as int;
        let mut temp = Stack::new();
        let mut i: usize = 0;
        while i < size
            invariant
                i <= size <= l,
                l == old(from)@.len(),
                from@ == old(from)@.subrange(0, l - i),
                temp@.len() == i,
                forall|j: int| 0 <= j < i ==> temp@[j] == old(from)@[l - 1 - j],
            decreases size - i,
        {
            let c = from.pop().unwrap();
            temp.push(c);
            proof {
                assert(old(from)@.subrange(0, l - i).drop_last() =~= old(from)@.subrange(
                    0,
                    l - i - 1,
                ));
            }
            i = i + 1;
        }
        let mut k: usize = 0;
        while k < size
            invariant
                k <= size <= l,
                l == old(from)@.len(),
                from@ == old(from)@.subrange(0, l - size),
                temp@.len() == size - k,
                forall|j: int| 0 <= j < size - k ==> temp@[j] == old(from)@[l - 1 - j],
                to@ == old(to)@ + old(from)@.subrange(l - size, l - size + k),
            decreases size - k,
        {
            let c = temp.pop().unwrap();
            to.push(c);
            proof {
                assert(old(from)@.subrange(l - size, l - size + k + 1) =~= old(from)@.subrange(
                    l - size,
                    l - size + k,
                ).push(old(from)@[l - size + k]));
            }
            k = k + 1;
        }
    }

    /// Turns the top card of the waste pile and of every tableau pile face
    /// up; a normalization pass, run after every mutating move, and safe to
    /// repeat.
    pub fn update_known(&mut self)
        requires
            spec_board_wf(old(self)@),
        ensures
            spec_board_wf(final(self)@),
            spec_tops_revealed(final(self)@),
            final(self)@ == spec_reveal_tops(old(self)@),
    {
        let playing_top = self.playing.pop();
        match playing_top {
            Some(card) => {
                self.playing.push(Card { value: card.value, suit: card.suit, known: true });
            },
            None => {},
        }
        proof {
            assert(self@.playing =~= spec_reveal_top(old(self)@.playing));
        }
        let mut i: usize = 0;
        while i < NB_PILES
            invariant
                self@.deck == old(self)@.deck,
                self@.fondation == old(self)@.fondation,
                self@.click == old(self)@.click,
                self@.playing == spec_reveal_top(old(self)@.playing),
                self@.piles.len() == NB_PILES,
                old(self)@.piles.len() == NB_PILES,
                i <= NB_PILES,
                forall|j: int|
                    0 <= j < i ==> self@.piles[j] == spec_reveal_top(#[trigger] old(
                        self,
                    )@.piles[j]),
                forall|j: int| i <= j < NB_PILES ==> self@.piles[j] == #[trigger] old(
                    self,
                )@.piles[j],
            decreases NB_PILES - i,
        {
            let mut pile = self.piles[i].clone();
            let top = pile.pop();
            match top {
                Some(card) => {
                    pile.push(Card { value: card.value, suit: card.suit, known: true });
                },
                None => {},
            }
            proof {
                assert(pile@ =~= spec_reveal_top(old(self)@.piles[i as int]));
            }
            self.piles.set(i, pile);
            i = i + 1;
        }
        proof {
            assert(self@ =~~= spec_reveal_tops(old(self)@));
        }
    }

    /// Rebuilds the deck from the waste pile: every card turned face down and
    /// the order reversed; the waste pile empties.
    fn refill(&mut self)
        ensures
            final(self)@.deck == spec_recycle(old(self)@.playing),
            final(self)@.playing == Seq::<Card>::empty(),
            final(self)@.fondation == old(self)@.fondation,
            final(self)@.piles == old(self)@.piles,
            final(self)@.click == old(self)@.click,
    {
        let flipped = self.playing.clone().map(face_down);
        proof {
            assert(flipped@ =~= old(self)@.playing.map_values(|c: Card| spec_face_down(c)));
        }
        let mut new_deck = flipped;
        new_deck.revert();
        self.deck = new_deck;
        self.playing = Stack::new();
    }

    /// A copy of the pile a click names; only the waste pile, a foundation or
    /// a tableau pile can be named.
    fn get_clicked_stack(&self, click: Click) -> (r: Stack)
        requires
            spec_click_wf(click),
            !(click.stack_type is NONE),
            !(click.stack_type is DECK),
            self@.fondation.len() == NB_FOND,
            self@.piles.len() == NB_PILES,
        ensures
            r@ == spec_pile_at(self@, click),
    {
        match click.stack_type {
            StackType::PLAYING => self.playing.clone(),
            StackType::PILES => self.piles[click.index].clone(),
            StackType::FONDATION => self.fondation[click.index].clone(),
            _ => self.playing.clone(),
        }
    }

    /// Writes a pile back to the place a click names.
    fn set_clicked_stack(&mut self, stack: Stack, click: Click)
        requires
            spec_click_wf(click),
            !(click.stack_type is NONE),
            !(click.stack_type is DECK),
            old(self)@.fondation.len() == NB_FOND,
            old(self)@.piles.len() == NB_PILES,
        ensures
            final(self)@ == spec_set_pile(old(self)@, click, stack@),
    {
        match click.stack_type {
            StackType::PLAYING => {
                self.playing = stack;
            },
            StackType::PILES => {
                self.piles.set(click.index, stack);
            },
            StackType::FONDATION => {
                self.fondation.set(click.index, stack);
            },
            _ => {
                self.playing = stack;
            },
        }
        proof {
            assert(self@ =~~= spec_set_pile(old(self)@, click, stack@));
        }
    }

    /// Processes one classified click: the sole mutating entry point of the
    /// game, stepping the two-click state machine as `spec_handle_click`
    /// states.
    pub fn handle_click(&mut self, click: Click)
        requires
            spec_board_wf(old(self)@),
            spec_click_wf(click),
        ensures
            spec_board_wf(final(self)@),
            final(self)@ == spec_handle_click(old(self)@, click),
            spec_tops_revealed(old(self)@) ==> spec_tops_revealed(final(self)@),
    {
        if click.stack_type == StackType::DECK {
            if self.deck.length() > 0 {
                Board::mov(&mut self.deck, &mut self.playing, 1);
                proof {
                    assert(self@.deck =~= old(self)@.deck.drop_last());
                    assert(self@.playing =~= old(self)@.playing.push(old(self)@.deck.last()));
                }
            } else {
                self.refill();
            }
            self.update_known();
            self.click = Click { stack_type: StackType::NONE, index: 0, card: 0 };
            proof {
                assert(self@ =~~= spec_handle_click(old(self)@, click));
            }
            return;
        }
        if self.click.stack_type == StackType::NONE {
            self.click = click;
            proof {
                assert(self@ =~~= spec_handle_click(old(self)@, click));
            }
            return;
        }
        if click.stack_type == StackType::NONE {
            self.click = click;
            proof {
                assert(self@ =~~= spec_handle_click(old(self)@, click));
            }
            return;
        }
        if click.stack_type == StackType::PLAYING {
            self.click = click;
            proof {
                assert(self@ =~~= spec_handle_click(old(self)@, click));
            }
            return;
        }
        // resolve the pending selection against this click
        let p = self.click;
        let stack_from = self.get_clicked_stack(p);
        let stack_to = self.get_clicked_stack(click);
        let src_len = stack_from.length();
        let same_pile = p.stack_type == click.stack_type && p.index == click.index;
        let mut legal = false;
        let mut off: usize = 0;
        if p.stack_type == StackType::PILES {
            if p.card < src_len {
                off = p.card;
                legal = true;
            }
        } else {
            if src_len > 0 {
                off = src_len - 1;
                legal = true;
            }
        }
        if same_pile {
            legal = false;
        }
        if legal {
            let base = stack_from.stack[off];
            legal = stack_to.is_mov_allowed(base, click.stack_type);
        }
        if legal {
            let mut from2 = stack_from;
            let mut to2 = stack_to;
            Board::mov(&mut from2, &mut to2, src_len - off);
            self.set_clicked_stack(to2, click);
            self.set_clicked_stack(from2, p);
            self.update_known();
        }
        self.click = Click { stack_type: StackType::NONE, index: 0, card: 0 };
        proof {
            assert(self@ =~~= spec_handle_click(old(self)@, click));
        }
    }

    /// Assembles a board from given piles, with no pending selection; `None`
    /// unless exactly four foundations and seven tableau piles are supplied.
    pub fn from_state(deck: Stack, playing: Stack, fondation: Vec<Stack>, piles: Vec<Stack>) -> (r:
        Option<Board>)
        ensures
            (r is Some) <==> (fondation@.len() == NB_FOND && piles@.len() == NB_PILES),
            r matches Some(b) ==> b@ == (BoardV {
                deck: deck@,
                playing: playing@,
                fondation: fondation@.map_values(|s: Stack| s@),
                piles: piles@.map_values(|s: Stack| s@),
                click: spec_none_click(),
            }),
            r matches Some(b) ==> spec_board_wf(b@),
    {
        if fondation.len() == NB_FOND && piles.len() == NB_PILES {
            Some(
                Board {
                    deck,
                    playing,
                    fondation,
                    piles,
                    click: Click { stack_type: StackType::NONE, index: 0, card: 0 },
                },
            )
        } else {
            None
        }
    }
}

} // verus!
