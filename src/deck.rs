//! The deck: its thirteen cards, the shuffle, and drawing into a hand.
use vstd::prelude::*;
use vstd::multiset::*;
use vstd::seq_lib::*;
use rand::seq::SliceRandom;
use crate::card::{labels, is_label};

verus! {

broadcast use {group_to_multiset_ensures, group_multiset_axioms};

/// The number of cards in a deck.
pub const DECK_SIZE: usize = 13;

/// The labels of a fresh deck, in order: "2" to "10", "J", "Q", "K", "A".
pub open spec fn standard_labels() -> Seq<Seq<char>> {
    seq![
        seq!['2'],
        seq!['3'],
        seq!['4'],
        seq!['5'],
        seq!['6'],
        seq!['7'],
        seq!['8'],
        seq!['9'],
        seq!['1', '0'],
        seq!['J'],
        seq!['Q'],
        seq!['K'],
        seq!['A'],
    ]
}

/// Every label of a fresh deck is a card label.
pub proof fn lemma_standard_labels()
    ensures
        standard_labels().len() == DECK_SIZE,
        forall|c: Seq<char>| standard_labels().contains(c) ==> is_label(c),
{
    assert forall|c: Seq<char>| standard_labels().contains(c) implies is_label(c) by {
        let k = choose|k: int| 0 <= k < standard_labels().len() && standard_labels()[k] == c;
        assert(0 <= k < 13);
    }
}

/// Two sequences of cards that are reorderings of each other have labels
/// that are reorderings of each other.
pub proof fn lemma_labels_reordered(a: Seq<&str>, b: Seq<&str>)
    requires
        a.to_multiset() == b.to_multiset(),
    ensures
        labels(a).to_multiset() == labels(b).to_multiset(),
    decreases a.len(),
{
    if a.len() == 0 {
        assert(b.to_multiset().len() == 0);
        assert(labels(a) =~= labels(b));
    } else {
        let x = a.last();
        let rest = a.drop_last();
        assert(a =~= rest.push(x));
        assert(a.contains(x)) by {
            assert(a[a.len() - 1] == x);
        }
        assert(a.to_multiset().count(x) > 0);
        assert(b.to_multiset().count(x) > 0);
        assert(b.contains(x));
        let j = choose|j: int| 0 <= j < b.len() && b[j] == x;
        let brest = b.remove(j);
        assert(rest.to_multiset() =~= a.to_multiset().remove(x));
        assert(brest.to_multiset() =~= b.to_multiset().remove(x));
        lemma_labels_reordered(rest, brest);
        assert(labels(a) =~= labels(rest).push(x@));
        assert(labels(brest) =~= labels(b).remove(j));
        assert(labels(b)[j] == x@);
        assert(labels(b).to_multiset().count(x@) > 0) by {
            assert(labels(b).contains(x@));
        }
        assert(labels(b).to_multiset() =~= labels(brest).to_multiset().insert(x@));
    }
}

/// Draws the top card of `deck` (its last item) onto the end of `hand`.
/// An empty deck leaves both unchanged; the result tells whether a card was
/// drawn.
pub fn draw_card<'a>(hand: &mut Vec<&'a str>, deck: &mut Vec<&'a str>) -> (drawn: bool)
    ensures
        drawn == (old(deck)@.len() > 0),
        drawn ==> final(deck)@ == old(deck)@.drop_last(),
        drawn ==> final(hand)@ == old(hand)@.push(old(deck)@.last()),
        !drawn ==> final(deck)@ == old(deck)@,
        !drawn ==> final(hand)@ == old(hand)@,
{
    match deck.pop() {
        Some(c) => {
            hand.push(c);
            true
        },
        None => false,
    }
}

/// Relies on rand's `SliceRandom::shuffle`, driven by `thread_rng`: it only
/// swaps items, so what comes out is a reordering of what went in.
#[verifier::external_body]
fn shuffle<T>(deck: &mut Vec<T>)
    ensures
        final(deck)@.to_multiset() == old(deck)@.to_multiset(),
{
    let mut rng = rand::thread_rng();
    deck.shuffle(&mut rng);
}

/// A fresh deck of the thirteen labels, in order.
pub fn standard_deck() -> (deck: Vec<&'static str>)
    ensures
        labels(deck@) == standard_labels(),
{
    let deck = vec!["2", "3", "4", "5", "6", "7", "8", "9", "10", "J", "Q", "K", "A"];
    proof {
        reveal_strlit("2");
        reveal_strlit("3");
        reveal_strlit("4");
        reveal_strlit("5");
        reveal_strlit("6");
        reveal_strlit("7");
        reveal_strlit("8");
        reveal_strlit("9");
        reveal_strlit("10");
        reveal_strlit("J");
        reveal_strlit("Q");
        reveal_strlit("K");
        reveal_strlit("A");
        assert("2"@ =~= seq!['2']);
        assert("3"@ =~= seq!['3']);
        assert("4"@ =~= seq!['4']);
        assert("5"@ =~= seq!['5']);
        assert("6"@ =~= seq!['6']);
        assert("7"@ =~= seq!['7']);
        assert("8"@ =~= seq!['8']);
        assert("9"@ =~= seq!['9']);
        assert("10"@ =~= seq!['1', '0']);
        assert("J"@ =~= seq!['J']);
        assert("Q"@ =~= seq!['Q']);
        assert("K"@ =~= seq!['K']);
        assert("A"@ =~= seq!['A']);
        assert(labels(deck@) =~= standard_labels());
    }
    deck
}

/// A fresh deck in random order: a reordering of the thirteen labels.
pub fn shuffled_deck() -> (deck: Vec<&'static str>)
    ensures
        labels(deck@).to_multiset() == standard_labels().to_multiset(),
{
    let mut deck = standard_deck();
    let ghost before = deck@;
    shuffle(&mut deck);
    proof {
        lemma_labels_reordered(deck@, before);
    }
    deck
}

} // verus!
