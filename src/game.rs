//! One round: the deal, the player's turn, the dealer's draw to 17, and
//! the outcome.
use vstd::prelude::*;
use vstd::multiset::*;
use vstd::seq_lib::*;
use vstd::string::*;
use crate::card::{all_labels, calculate_score, hand_score, is_label, labels};
use crate::deck::{draw_card, lemma_standard_labels, shuffled_deck, standard_labels, DECK_SIZE};

verus! {

broadcast use {group_to_multiset_ensures, group_multiset_axioms};

/// What `str::trim` returns: the characters with leading and trailing
/// whitespace removed.
pub uninterp spec fn trimmed(s: Seq<char>) -> Seq<char>;

/// What `str::to_uppercase` returns: the characters mapped to upper case.
pub uninterp spec fn uppercased(s: Seq<char>) -> Seq<char>;

/// Relies on `str::trim`: a slice of the input whose contents depend on the
/// input's characters alone.
#[verifier::external_body]
fn trim(s: &str) -> (r: &str)
    ensures
        r@ == trimmed(s@),
{
    s.trim()
}

/// Relies on `str::to_uppercase`: the result depends on the input's
/// characters alone.
#[verifier::external_body]
fn uppercase(s: &str) -> (r: String)
    ensures
        r@ == uppercased(s@),
{
    s.to_uppercase()
}

/// What the player asks for on their turn.
#[derive(Debug, Clone, Copy, PartialEq, Eq, Structural)]
pub enum Choice {
    Hit,
    Stay,
    Quit,
    Invalid,
}

/// The choice that a command names, once trimmed and upper-cased.
pub open spec fn choice_of(cmd: Seq<char>) -> Choice {
    if cmd == seq!['H'] {
        Choice::Hit
    } else if cmd == seq!['S'] {
        Choice::Stay
    } else if cmd == seq!['Q'] {
        Choice::Quit
    } else {
        Choice::Invalid
    }
}

impl Choice {
    /// The choice that an already trimmed, upper-cased command names:
    /// "H", "S" or "Q", anything else being invalid.
    pub fn from_command(cmd: &str) -> (c: Choice)
        ensures
            c == choice_of(cmd@),
    {
        if cmd.unicode_len() != 1 {
            return Choice::Invalid;
        }
        let ch = cmd.get_char(0);
        if ch == 'H' {
            assert(cmd@ =~= seq!['H']);
            Choice::Hit
        } else if ch == 'S' {
            assert(cmd@ =~= seq!['S']);
            Choice::Stay
        } else if ch == 'Q' {
            assert(cmd@ =~= seq!['Q']);
            Choice::Quit
        } else {
            Choice::Invalid
        }
    }

    /// The choice that a line of input names: it is trimmed of whitespace
    /// and upper-cased first, so " h\n" is a hit.
    pub fn parse(line: &str) -> (c: Choice)
        ensures
            c == choice_of(uppercased(trimmed(line@))),
    {
        let upper = uppercase(trim(line));
        Choice::from_command(upper.as_str())
    }
}

/// How a finished round ended.
#[derive(Debug, Clone, Copy, PartialEq, Eq, Structural)]
pub enum Outcome {
    /// The dealer went over 21.
    DealerBusts,
    DealerWins,
    PlayerWins,
    Tie,
}

/// The outcome once the dealer has drawn, from the player's and the
/// dealer's scores.
pub open spec fn outcome_of(player: int, dealer: int) -> Outcome {
    if dealer > 21 {
        Outcome::DealerBusts
    } else if dealer > player {
        Outcome::DealerWins
    } else if dealer < player {
        Outcome::PlayerWins
    } else {
        Outcome::Tie
    }
}

/// The outcome once the dealer has drawn: a dealer over 21 loses, else the
/// higher score wins and equal scores tie.
pub fn outcome(player_score: i32, dealer_score: i32) -> (o: Outcome)
    ensures
        o == outcome_of(player_score as int, dealer_score as int),
{
    if dealer_score > 21 {
        Outcome::DealerBusts
    } else if dealer_score > player_score {
        Outcome::DealerWins
    } else if dealer_score < player_score {
        Outcome::PlayerWins
    } else {
        Outcome::Tie
    }
}

/// What came of one turn of the player, for the caller to show.
#[derive(Debug, Clone, Copy, PartialEq, Eq, Structural)]
pub enum Step {
    /// A hit drew a card; the player's turn goes on.
    Drew,
    /// A hit found the deck empty and drew nothing; the player's turn goes on.
    DeckEmpty,
    /// A hit took the player over 21: the round is over and lost.
    Busted,
    /// The input named no choice; the player's turn goes on.
    NotValid,
    /// The player quit: the round is over with no outcome.
    Quit,
    /// The player stayed, the dealer drew, and the round is over.
    /// `deck_ran_out` tells that the dealer stopped under 17 on an empty deck.
    Finished { deck_ran_out: bool, outcome: Outcome },
}

/// The dealer's hand and the deck after the dealer has drawn while under 17
/// and the deck held cards.
pub open spec fn dealer_draws<'a>(dealer: Seq<&'a str>, deck: Seq<&'a str>) -> (
    Seq<&'a str>,
    Seq<&'a str>,
)
    decreases deck.len(),
{
    if deck.len() == 0 || hand_score(labels(dealer)) >= 17 {
        (dealer, deck)
    } else {
        dealer_draws(dealer.push(deck.last()), deck.drop_last())
    }
}

/// A round in play: the deck, the two hands, and whether the round is over.
pub struct Game {
    pub deck: Vec<&'static str>,
    pub player: Vec<&'static str>,
    pub dealer: Vec<&'static str>,
    pub over: bool,
}

/// The cards of a round: the deck and both hands hold, between them, the
/// thirteen labels of a fresh deck, each once.
pub open spec fn holds_full_deck(deck: Seq<&str>, player: Seq<&str>, dealer: Seq<&str>) -> bool {
    labels(deck).to_multiset().add(labels(player).to_multiset()).add(
        labels(dealer).to_multiset(),
    ) == standard_labels().to_multiset()
}

/// A sequence of cards that is part of a full deck holds only card labels,
/// and at most thirteen of them.
proof fn lemma_part_of_deck(part: Seq<&str>, others: Multiset<Seq<char>>)
    requires
        labels(part).to_multiset().add(others) == standard_labels().to_multiset(),
    ensures
        all_labels(labels(part)),
        part.len() <= DECK_SIZE,
{
    lemma_standard_labels();
    assert forall|i: int| 0 <= i < labels(part).len() implies is_label(#[trigger] labels(part)[i]) by {
        let c = labels(part)[i];
        assert(labels(part).contains(c));
        assert(labels(part).to_multiset().count(c) > 0);
        assert(standard_labels().to_multiset().count(c) > 0);
        assert(standard_labels().contains(c));
    }
    assert(labels(part).len() == labels(part).to_multiset().len());
    assert(standard_labels().to_multiset().len() == DECK_SIZE);
    assert(labels(part).to_multiset().add(others).len() == labels(part).to_multiset().len()
        + others.len());
}

/// Moving the top card of a deck onto a hand keeps the cards that the two
/// hold between them.
proof fn lemma_move_top(deck: Seq<&str>, hand: Seq<&str>)
    requires
        deck.len() > 0,
    ensures
        labels(deck.drop_last()).to_multiset().add(labels(hand.push(deck.last())).to_multiset())
            == labels(deck).to_multiset().add(labels(hand).to_multiset()),
{
    let x = deck.last();
    assert(deck =~= deck.drop_last().push(x));
    assert(labels(deck) =~= labels(deck.drop_last()).push(x@));
    assert(labels(hand.push(x)) =~= labels(hand).push(x@));
    assert(labels(deck.drop_last()).to_multiset().add(labels(hand.push(x)).to_multiset())
        =~= labels(deck).to_multiset().add(labels(hand).to_multiset()));
}

impl Game {
    /// The cards of the round are those of a fresh deck.
    pub open spec fn wf(&self) -> bool {
        holds_full_deck(self.deck@, self.player@, self.dealer@)
    }

    /// The hands of a well-formed round hold only card labels, and few
    /// enough to score.
    pub proof fn lemma_hands(&self)
        requires
            self.wf(),
        ensures
            all_labels(labels(self.player@)),
            all_labels(labels(self.dealer@)),
            self.player@.len() <= DECK_SIZE,
            self.dealer@.len() <= DECK_SIZE,
    {
        let d = labels(self.deck@).to_multiset();
        let p = labels(self.player@).to_multiset();
        let r = labels(self.dealer@).to_multiset();
        assert(p.add(d.add(r)) =~= d.add(p).add(r));
        assert(r.add(d.add(p)) =~= d.add(p).add(r));
        lemma_part_of_deck(self.player@, d.add(r));
        lemma_part_of_deck(self.dealer@, d.add(p));
    }

    /// At every point of a round, the deck and the two hands hold thirteen
    /// cards between them.
    pub proof fn lemma_thirteen_cards(&self)
        requires
            self.wf(),
        ensures
            self.deck@.len() + self.player@.len() + self.dealer@.len() == DECK_SIZE,
    {
        lemma_standard_labels();
        assert(labels(self.deck@).len() == self.deck@.len());
        assert(labels(self.player@).len() == self.player@.len());
        assert(labels(self.dealer@).len() == self.dealer@.len());
        assert(labels(self.deck@).to_multiset().len() == self.deck@.len());
        assert(labels(self.player@).to_multiset().len() == self.player@.len());
        assert(labels(self.dealer@).to_multiset().len() == self.dealer@.len());
        assert(standard_labels().to_multiset().len() == DECK_SIZE);
    }

    /// A round dealt from `deck`, taken in the order given: the dealer gets
    /// its top card, then the player the next two.
    pub fn deal(deck: Vec<&'static str>) -> (g: Game)
        requires
            labels(deck@).to_multiset() == standard_labels().to_multiset(),
        ensures
            g.wf(),
            !g.over,
            deck@.len() == DECK_SIZE,
            g.dealer@ == seq![deck@[12]],
            g.player@ == seq![deck@[11], deck@[10]],
            g.deck@ == deck@.take(10),
    {
        proof {
            lemma_standard_labels();
            assert(labels(deck@).len() == labels(deck@).to_multiset().len());
        }
        let ghost cards = deck@;
        let mut g = Game { deck, player: Vec::new(), dealer: Vec::new(), over: false };
        proof {
            let none = labels(g.player@);
            assert(none =~= Seq::empty());
            assert(labels(g.dealer@) =~= none);
            assert(none.to_multiset() =~= Multiset::empty());
            assert(labels(cards).to_multiset().add(none.to_multiset()).add(none.to_multiset())
                =~= labels(cards).to_multiset());
        }
        g.draw_to_dealer();
        g.draw_to_player();
        g.draw_to_player();
        assert(g.deck@ =~= cards.take(10));
        assert(g.player@ =~= seq![cards[11], cards[10]]);
        assert(g.dealer@ =~= seq![cards[12]]);
        g
    }

    /// A round dealt from a freshly shuffled deck: one card to the dealer,
    /// two to the player, ten left in the deck.
    pub fn new() -> (g: Game)
        ensures
            g.wf(),
            !g.over,
            g.dealer@.len() == 1,
            g.player@.len() == 2,
            g.deck@.len() == 10,
    {
        Game::deal(shuffled_deck())
    }

    /// Draws the top card of the deck onto the player's hand, where there is one.
    fn draw_to_player(&mut self) -> (drawn: bool)
        requires
            old(self).wf(),
        ensures
            final(self).wf(),
            final(self).over == old(self).over,
            final(self).dealer@ == old(self).dealer@,
            drawn == (old(self).deck@.len() > 0),
            drawn ==> final(self).deck@ == old(self).deck@.drop_last(),
            drawn ==> final(self).player@ == old(self).player@.push(old(self).deck@.last()),
            !drawn ==> final(self).deck@ == old(self).deck@,
            !drawn ==> final(self).player@ == old(self).player@,
    {
        proof {
            if self.deck@.len() > 0 {
                lemma_move_top(self.deck@, self.player@);
            }
        }
        draw_card(&mut self.player, &mut self.deck)
    }

    /// Draws the top card of the deck onto the dealer's hand, where there is one.
    fn draw_to_dealer(&mut self) -> (drawn: bool)
        requires
            old(self).wf(),
        ensures
            final(self).wf(),
            final(self).over == old(self).over,
            final(self).player@ == old(self).player@,
            drawn == (old(self).deck@.len() > 0),
            drawn ==> final(self).deck@ == old(self).deck@.drop_last(),
            drawn ==> final(self).dealer@ == old(self).dealer@.push(old(self).deck@.last()),
            !drawn ==> final(self).deck@ == old(self).deck@,
            !drawn ==> final(self).dealer@ == old(self).dealer@,
    {
        proof {
            if self.deck@.len() > 0 {
                lemma_move_top(self.deck@, self.dealer@);
                let d = labels(self.deck@).to_multiset();
                let dl = labels(self.deck@.drop_last()).to_multiset();
                let p = labels(self.player@).to_multiset();
                let r = labels(self.dealer@).to_multiset();
                let r2 = labels(self.dealer@.push(self.deck@.last())).to_multiset();
                assert(dl.add(p).add(r2) =~= dl.add(r2).add(p));
                assert(d.add(r).add(p) =~= d.add(p).add(r));
            }
        }
        draw_card(&mut self.dealer, &mut self.deck)
    }

    /// The dealer draws while their score is under 17 and the deck holds
    /// cards. The result tells whether the deck ran out with the dealer
    /// still under 17.
    pub fn dealer_play(&mut self) -> (ran_out: bool)
        requires
            old(self).wf(),
        ensures
            final(self).wf(),
            final(self).over == old(self).over,
            final(self).player@ == old(self).player@,
            (final(self).dealer@, final(self).deck@) == dealer_draws(
                old(self).dealer@,
                old(self).deck@,
            ),
            hand_score(labels(final(self).dealer@)) >= 17 || final(self).deck@.len() == 0,
            ran_out == (hand_score(labels(final(self).dealer@)) < 17),
    {
        let ghost start_dealer = self.dealer@;
        let ghost start_deck = self.deck@;
        loop
            invariant
                self.wf(),
                self.over == old(self).over,
                self.player@ == old(self).player@,
                dealer_draws(self.dealer@, self.deck@) == dealer_draws(start_dealer, start_deck),
                start_dealer == old(self).dealer@,
                start_deck == old(self).deck@,
            decreases self.deck@.len(),
        {
            let score = self.dealer_score();
            if score >= 17 {
                return false;
            }
            if self.deck.len() == 0 {
                return true;
            }
            self.draw_to_dealer();
        }
    }

    /// One turn of the player. A hit draws a card for the player and ends
    /// the round, lost, where the player's score goes over 21. A stay lets the
    /// dealer draw and ends the round with its outcome. A quit ends the round
    /// with no outcome. An invalid choice changes nothing.
    pub fn play(&mut self, choice: Choice) -> (step: Step)
        requires
            old(self).wf(),
            !old(self).over,
        ensures
            final(self).wf(),
            choice == Choice::Hit ==> {
                &&& final(self).dealer@ == old(self).dealer@
                &&& old(self).deck@.len() > 0 ==> final(self).deck@ == old(self).deck@.drop_last()
                    && final(self).player@ == old(self).player@.push(old(self).deck@.last())
                &&& old(self).deck@.len() == 0 ==> final(self).deck@ == old(self).deck@
                    && final(self).player@ == old(self).player@
                &&& step == if hand_score(labels(final(self).player@)) > 21 {
                    Step::Busted
                } else if old(self).deck@.len() > 0 {
                    Step::Drew
                } else {
                    Step::DeckEmpty
                }
                &&& final(self).over == (step == Step::Busted)
            },
            choice == Choice::Stay ==> {
                &&& final(self).player@ == old(self).player@
                &&& (final(self).dealer@, final(self).deck@) == dealer_draws(
                    old(self).dealer@,
                    old(self).deck@,
                )
                &&& final(self).over
                &&& step == (Step::Finished {
                    deck_ran_out: hand_score(labels(final(self).dealer@)) < 17,
                    outcome: outcome_of(
                        hand_score(labels(final(self).player@)),
                        hand_score(labels(final(self).dealer@)),
                    ),
                })
            },
            choice == Choice::Quit ==> {
                &&& final(self).deck@ == old(self).deck@
                &&& final(self).player@ == old(self).player@
                &&& final(self).dealer@ == old(self).dealer@
                &&& final(self).over
                &&& step == Step::Quit
            },
            choice == Choice::Invalid ==> {
                &&& *final(self) == *old(self)
                &&& step == Step::NotValid
            },
    {
        match choice {
            Choice::Hit => {
                let drawn = self.draw_to_player();
                if self.player_score() > 21 {
                    self.over = true;
                    Step::Busted
                } else if drawn {
                    Step::Drew
                } else {
                    Step::DeckEmpty
                }
            },
            Choice::Stay => {
                let deck_ran_out = self.dealer_play();
                self.over = true;
                let o = outcome(self.player_score(), self.dealer_score());
                Step::Finished { deck_ran_out, outcome: o }
            },
            Choice::Quit => {
                self.over = true;
                Step::Quit
            },
            Choice::Invalid => Step::NotValid,
        }
    }

    /// The player's score.
    pub fn player_score(&self) -> (s: i32)
        requires
            self.wf(),
        ensures
            s == hand_score(labels(self.player@)),
    {
        proof {
            self.lemma_hands();
        }
        calculate_score(self.player.as_slice())
    }

    /// The dealer's score.
    pub fn dealer_score(&self) -> (s: i32)
        requires
            self.wf(),
        ensures
            s == hand_score(labels(self.dealer@)),
    {
        proof {
            self.lemma_hands();
        }
        calculate_score(self.dealer.as_slice())
    }
}

} // verus!
