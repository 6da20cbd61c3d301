//! Card labels and the scoring of a hand.
use vstd::prelude::*;
use vstd::string::*;

verus! {

/// The label of the ace.
pub open spec fn ace() -> Seq<char> {
    seq!['A']
}

/// The value of a single-character number label, 0 for any other character.
pub open spec fn digit_value(ch: char) -> int {
    if ch == '2' {
        2
    } else if ch == '3' {
        3
    } else if ch == '4' {
        4
    } else if ch == '5' {
        5
    } else if ch == '6' {
        6
    } else if ch == '7' {
        7
    } else if ch == '8' {
        8
    } else if ch == '9' {
        9
    } else {
        0
    }
}

/// The thirteen labels: "2" to "10", "J", "Q", "K" and "A".
pub open spec fn is_label(c: Seq<char>) -> bool {
    ||| (c.len() == 1 && digit_value(c[0]) != 0)
    ||| c == seq!['1', '0']
    ||| c == seq!['J']
    ||| c == seq!['Q']
    ||| c == seq!['K']
    ||| c == ace()
}

/// What one card adds to a hand when an ace counts 1: a number card its
/// number, a face card 10.
pub open spec fn card_points(c: Seq<char>) -> int {
    if c.len() == 1 && digit_value(c[0]) != 0 {
        digit_value(c[0])
    } else if c == ace() {
        1
    } else {
        10
    }
}

/// The labels of a sequence of cards.
pub open spec fn labels(cards: Seq<&str>) -> Seq<Seq<char>> {
    cards.map_values(|c: &str| c@)
}

/// Every card of the hand is one of the thirteen labels.
pub open spec fn all_labels(hand: Seq<Seq<char>>) -> bool {
    forall|i: int| 0 <= i < hand.len() ==> is_label(#[trigger] hand[i])
}

/// The sum of the cards' points, every ace counting 1.
pub open spec fn hand_points(hand: Seq<Seq<char>>) -> int
    decreases hand.len(),
{
    if hand.len() == 0 {
        0
    } else {
        hand_points(hand.drop_last()) + card_points(hand.last())
    }
}

/// The score of a hand: its points, and 10 more where it holds an ace and
/// its points are under 12 (one ace then counts 11).
pub open spec fn hand_score(hand: Seq<Seq<char>>) -> int {
    let p = hand_points(hand);
    if hand.contains(ace()) && p < 12 {
        p + 10
    } else {
        p
    }
}

/// The points of two hands laid end to end are the sum of their points.
pub proof fn lemma_points_concat(a: Seq<Seq<char>>, b: Seq<Seq<char>>)
    ensures
        hand_points(a + b) == hand_points(a) + hand_points(b),
    decreases b.len(),
{
    if b.len() > 0 {
        lemma_points_concat(a, b.drop_last());
        assert((a + b).drop_last() =~= a + b.drop_last());
    } else {
        assert(a + b =~= a);
    }
}

/// A hand without an ace scores the sum of its cards' face values: the
/// number on a number card, 10 for a jack, queen or king.
pub proof fn lemma_score_without_ace(hand: Seq<Seq<char>>)
    requires
        !hand.contains(ace()),
    ensures
        hand_score(hand) == hand_points(hand),
{
}

/// In a hand with exactly one ace, the ace counts 11 where the hand's total
/// with the ace as 1 is under 12, and 1 otherwise.
pub proof fn lemma_score_one_ace(before: Seq<Seq<char>>, after: Seq<Seq<char>>)
    requires
        !before.contains(ace()),
        !after.contains(ace()),
    ensures
        ({
            let rest = hand_points(before + after);
            hand_score(before + seq![ace()] + after) == rest + if rest + 1 < 12 {
                11int
            } else {
                1int
            }
        }),
{
    let hand = before + seq![ace()] + after;
    lemma_points_concat(before, seq![ace()]);
    lemma_points_concat(before + seq![ace()], after);
    lemma_points_concat(before, after);
    let one = seq![ace()];
    assert(one.drop_last() =~= Seq::<Seq<char>>::empty());
    assert(hand_points(one.drop_last()) == 0);
    assert(card_points(one.last()) == 1);
    assert(hand_points(one) == 1);
    assert(hand[before.len() as int] == ace());
    assert(hand.contains(ace()));
}

/// The largest hand that `calculate_score` takes: its score then fits an `i32`.
pub const MAX_HAND: usize = 100_000_000;

/// The points of one card, an ace counting 1.
fn card_value(card: &str) -> (p: i32)
    requires
        is_label(card@),
    ensures
        p == card_points(card@),
        p == 1 <==> card@ == ace(),
        1 <= p <= 10,
{
    if card.unicode_len() == 2 {
        return 10;
    }
    let ch = card.get_char(0);
    match ch {
        '2' => 2,
        '3' => 3,
        '4' => 4,
        '5' => 5,
        '6' => 6,
        '7' => 7,
        '8' => 8,
        '9' => 9,
        'A' => {
            assert(card@ =~= ace());
            1
        },
        _ => 10,
    }
}

/// The score of a hand of card labels.
pub fn calculate_score(hand: &[&str]) -> (score: i32)
    requires
        all_labels(labels(hand@)),
        hand@.len() <= MAX_HAND,
    ensures
        score == hand_score(labels(hand@)),
{
    let ghost all = labels(hand@);
    let mut score: i32 = 0;
    let mut has_ace = false;
    let mut i: usize = 0;
    while i < hand.len()
        invariant
            all == labels(hand@),
            all_labels(all),
            hand@.len() <= MAX_HAND,
            i <= hand@.len(),
            score == hand_points(all.take(i as int)),
            0 <= score <= 10 * i,
            has_ace == all.take(i as int).contains(ace()),
        decreases hand@.len() - i,
    {
        assert(all[i as int] == hand@[i as int]@);
        let p = card_value(hand[i]);
        proof {
            let next = all.take(i + 1);
            assert(next.drop_last() =~= all.take(i as int));
            assert(next.last() == hand@[i as int]@);
            assert(next =~= all.take(i as int).push(hand@[i as int]@));
            if all.take(i as int).contains(ace()) {
                let k = choose|k: int| 0 <= k < i && all.take(i as int)[k] == ace();
                assert(next[k] == ace());
            }
            if hand@[i as int]@ == ace() {
                assert(next[i as int] == ace());
            }
            if next.contains(ace()) && hand@[i as int]@ != ace() {
                let k = choose|k: int| 0 <= k < i + 1 && next[k] == ace();
                assert(all.take(i as int)[k] == ace());
            }
        }
        score = score + p;
        has_ace = has_ace || p == 1;
        i = i + 1;
    }
    assert(all.take(i as int) =~= all);
    if has_ace && score < 12 {
        score = score + 10;
    }
    score
}

} // verus!
