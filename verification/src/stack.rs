//! Tile stacks: the tokens that occupy one tile, in the order in which they
//! arrived.

use vstd::prelude::*;
use crate::token::{Token, TokenType};

verus! {

/// The most tokens that one tile can hold.
pub const STACK_CAPACITY: usize = 100;

/// The token that marks the player, as a value of contracts.
pub open spec fn player_token() -> Token {
    Token { token_type: TokenType::Player }
}

/// How many player tokens a sequence of tokens holds.
pub open spec fn player_count(s: Seq<Token>) -> nat {
    s.to_multiset().count(player_token())
}

/// The stack `s` after `token` was put on it: an occupant goes on top, an
/// empty slot changes nothing.
pub open spec fn pushed(s: Seq<Token>, token: Token) -> Seq<Token> {
    if token.is_occupant() {
        s.push(token)
    } else {
        s
    }
}

/// What holds of the tokens on every tile: they are no more than the
/// capacity, and each of them is an occupant (an empty slot is never stored).
pub open spec fn stack_inv(s: Seq<Token>) -> bool {
    &&& s.len() <= STACK_CAPACITY
    &&& forall|i: int| 0 <= i < s.len() ==> (#[trigger] s[i]).is_occupant()
}

/// A sequence holds a player token exactly if its count of them is not 0.
pub proof fn lemma_player_count_contains(s: Seq<Token>)
    ensures
        s.contains(player_token()) <==> player_count(s) > 0,
{
    vstd::seq_lib::to_multiset_contains(s, player_token());
}

/// A player token on top makes one player token more.
pub proof fn lemma_push_player(s: Seq<Token>)
    ensures
        player_count(s.push(player_token())) == player_count(s) + 1,
        !s.contains(player_token()) ==> s.push(player_token()).remove_value(player_token()) == s,
{
    vstd::seq_lib::to_multiset_build(s, player_token());
    if !s.contains(player_token()) {
        let t = s.push(player_token());
        t.index_of_first_ensures(player_token());
        assert(t[s.len() as int] == player_token());
        assert(t.remove(s.len() as int) =~= s);
    }
}

/// To take the lowest player token off a sequence that holds one makes the
/// sequence one token shorter and leaves one player token less; the other
/// tokens keep their places among themselves. Where the token that is taken
/// was on top, it goes back where it was when it is put on top again.
pub proof fn lemma_remove_player(s: Seq<Token>)
    requires
        s.contains(player_token()),
    ensures
        s.remove_value(player_token()).len() == s.len() - 1,
        player_count(s.remove_value(player_token())) == player_count(s) - 1,
        s.remove_value(player_token()).push(player_token()).to_multiset() == s.to_multiset(),
        stack_inv(s) ==> stack_inv(s.remove_value(player_token())),
        player_count(s) == 1 && s.last() == player_token() ==> s.remove_value(
            player_token(),
        ).push(player_token()) == s,
{
    let p = player_token();
    s.index_of_first_ensures(p);
    let i = s.index_of_first(p).unwrap();
    let r = s.remove(i);
    s.remove_ensures(i);
    vstd::seq_lib::to_multiset_remove(s, i);
    vstd::seq_lib::to_multiset_build(r, p);
    vstd::seq_lib::to_multiset_contains(s, p);
    assert(r.push(p).to_multiset() =~= s.to_multiset());
    if player_count(s) == 1 && s.last() == p {
        if i != s.len() - 1 {
            vstd::seq_lib::to_multiset_contains(r, p);
            assert(r[s.len() - 2] == p);
        }
        assert(r.push(p) =~= s);
    }
}

/// The tokens on one tile. The first token is the bottom of the stack, the
/// one that arrived first; a new token goes on top.
#[derive(Debug, PartialEq, Eq)]
pub struct TileStack {
    stack: Vec<Token>,
}

impl View for TileStack {
    type V = Seq<Token>;

    /// The tokens, from the bottom of the stack to its top.
    closed spec fn view(&self) -> Seq<Token> {
        self.stack@
    }
}

impl Clone for TileStack {
    /// A stack with the same tokens in the same order.
    fn clone(&self) -> (copy: TileStack)
        ensures
            copy@ == self@,
    {
        let stack = self.stack.clone();
        assert(stack@ =~= self.stack@);
        TileStack { stack }
    }
}

impl TileStack {
    /// The stack is within its capacity and stores no empty slot.
    pub open spec fn wf(&self) -> bool {
        stack_inv(self@)
    }

    /// A stack without tokens.
    pub fn new() -> (stack: TileStack)
        ensures
            stack.wf(),
            stack@ == Seq::<Token>::empty(),
    {
        TileStack { stack: Vec::new() }
    }

    /// The number of tokens on the stack.
    pub fn len(&self) -> (n: usize)
        ensures
            n == self@.len(),
    {
        self.stack.len()
    }

    /// Whether the stack holds no token.
    pub fn is_empty(&self) -> (b: bool)
        ensures
            b == (self@.len() == 0),
    {
        self.stack.len() == 0
    }

    /// Whether one more token fits.
    pub fn has_room(&self) -> (b: bool)
        ensures
            b == (self@.len() < STACK_CAPACITY),
    {
        self.stack.len() < STACK_CAPACITY
    }

    /// The token at height `i`, counted from the bottom, if there is one.
    pub fn get(&self, i: usize) -> (token: Option<Token>)
        ensures
            token == if i < self@.len() {
                Some(self@[i as int])
            } else {
                None
            },
    {
        if i < self.stack.len() {
            Some(self.stack[i])
        } else {
            None
        }
    }

    /// Puts `token` on top of the stack. A token of kind `Empty` stands for
    /// an empty slot: with it the stack stays as it was. The stack must have
    /// room for an occupant.
    pub fn push(&mut self, token: Token)
        requires
            old(self).wf(),
            token.is_occupant() ==> old(self)@.len() < STACK_CAPACITY,
        ensures
            final(self).wf(),
            final(self)@ == pushed(old(self)@, token),
    {
        if token.marks_occupant() {
            self.stack.push(token);
        }
    }

    /// Whether a player token is on the stack.
    pub fn holds_player(&self) -> (b: bool)
        ensures
            b == self@.contains(player_token()),
    {
        let n: usize = self.stack.len();
        let mut i: usize = 0;
        while i < n
            invariant
                i <= n,
                n == self.stack@.len(),
                forall|j: int| 0 <= j < i ==> self.stack@[j] != player_token(),
            decreases n - i,
        {
            if self.stack[i].marks_player() {
                return true;
            }
            i += 1;
        }
        false
    }

    /// Takes the lowest player token off the stack and says whether there was
    /// one. The other tokens keep their order.
    pub fn remove_player(&mut self) -> (found: bool)
        requires
            old(self).wf(),
        ensures
            final(self).wf(),
            found == old(self)@.contains(player_token()),
            final(self)@ == old(self)@.remove_value(player_token()),
    {
        let n: usize = self.stack.len();
        let mut i: usize = 0;
        while i < n
            invariant
                i <= n,
                n == self.stack@.len(),
                self.stack@ == old(self).stack@,
                stack_inv(self.stack@),
                forall|j: int| 0 <= j < i ==> self.stack@[j] != player_token(),
            decreases n - i,
        {
            if self.stack[i].marks_player() {
                proof {
                    self.stack@.index_of_first_ensures(player_token());
                    self.stack@.remove_ensures(i as int);
                }
                self.stack.remove(i);
                return true;
            }
            i += 1;
        }
        proof {
            self.stack@.index_of_first_ensures(player_token());
        }
        false
    }
}

} // verus!
