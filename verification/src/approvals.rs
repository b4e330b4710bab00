//! Approving the pool to take the liquidator's tokens.
//!
//! One token after the other is asked for its allowance, and approved if that is zero. Asking and
//! sending happen outside.
use vstd::prelude::*;

use crate::address::Address;
use crate::numbers::{two_256, U256};
use crate::strategy::AaveStrategy;

verus! {

/// An approval to send.
#[derive(Clone, Copy, Debug)]
pub struct Approval {
    pub token: Address,
    pub nonce: U256,
}

/// A question for the amount of a token that a spender may take from an owner.
#[derive(Clone, Copy, Debug)]
pub struct AllowanceQuery {
    pub token: Address,
    pub owner: Address,
    pub spender: Address,
}

/// A walk through the tokens.
#[derive(Debug)]
pub struct ApprovalRun {
    tokens: Vec<Address>,
    next: usize,
    nonce: U256,
    owner: Address,
    spender: Address,
}

/// How far a walk through the tokens has come: the tokens that are still to be asked, and the
/// nonce of the next approval.
pub struct ApprovalRunView {
    pub tokens: Seq<Address>,
    pub nonce: nat,
    pub owner: Address,
    pub spender: Address,
}

impl View for ApprovalRun {
    type V = ApprovalRunView;

    closed spec fn view(&self) -> ApprovalRunView {
        ApprovalRunView {
            tokens: self.tokens@.skip(self.next as int),
            nonce: self.nonce@,
            owner: self.owner,
            spender: self.spender,
        }
    }
}

impl ApprovalRunView {
    /// The walk after the allowance of its next token is known.
    pub open spec fn answered(self, allowance: nat) -> ApprovalRunView {
        ApprovalRunView {
            tokens: self.tokens.drop_first(),
            nonce: if allowance == 0 {
                self.nonce + 1
            } else {
                self.nonce
            },
            ..self
        }
    }

    /// The walk after several allowances are known.
    pub open spec fn after(self, allowances: Seq<nat>) -> ApprovalRunView
        decreases allowances.len(),
    {
        if allowances.len() == 0 {
            self
        } else {
            self.after(allowances.drop_last()).answered(allowances.last())
        }
    }
}

impl ApprovalRun {
    #[verifier::type_invariant]
    spec fn is_among_tokens(self) -> bool {
        self.next <= self.tokens@.len()
    }

    /// The allowance to ask for next.
    pub fn query(&self) -> (r: Option<AllowanceQuery>)
        ensures
            r == if self@.tokens.len() > 0 {
                Some(
                    AllowanceQuery {
                        token: self@.tokens[0],
                        owner: self@.owner,
                        spender: self@.spender,
                    },
                )
            } else {
                None
            },
    {
        proof {
            use_type_invariant(self);
        }
        if self.next < self.tokens.len() {
            Some(
                AllowanceQuery {
                    token: self.tokens[self.next],
                    owner: self.owner,
                    spender: self.spender,
                },
            )
        } else {
            None
        }
    }

    /// Whether a nonce is left behind the next one.
    pub fn has_next_nonce(&self) -> (r: bool)
        ensures
            r == (self@.nonce + 1 < two_256()),
    {
        match self.nonce.checked_add(U256::from_u64(1)) {
            Some(_) => true,
            None => false,
        }
    }

    /// The approval to send once the allowance of the next token is known: one for a token
    /// without allowance, with the next nonce.
    pub fn approval(&self, allowance: &U256) -> (r: Option<Approval>)
        requires
            self@.tokens.len() > 0,
        ensures
            r is Some <==> allowance@ == 0,
            r matches Some(approval) ==> approval.token == self@.tokens[0] && approval.nonce@
                == self@.nonce,
    {
        proof {
            use_type_invariant(self);
        }
        assert(self.next < self.tokens.len());
        if *allowance == U256::from_u64(0) {
            Some(Approval { token: self.tokens[self.next], nonce: self.nonce })
        } else {
            None
        }
    }

    /// Goes on to the token behind the next one; an approval has used up a nonce.
    pub fn answer(self, allowance: &U256) -> (r: ApprovalRun)
        requires
            self@.tokens.len() > 0,
            allowance@ == 0 ==> self@.nonce + 1 < two_256(),
        ensures
            r@ == self@.answered(allowance@),
    {
        proof {
            use_type_invariant(&self);
        }
        let ApprovalRun { tokens, next, nonce, owner, spender } = self;
        assert(next < tokens.len());
        assert(tokens@.skip(next as int).drop_first() =~= tokens@.skip(next + 1));
        let nonce = if *allowance == U256::from_u64(0) {
            nonce.add(U256::from_u64(1))
        } else {
            nonce
        };
        ApprovalRun { tokens, next: next + 1, nonce, owner, spender }
    }
}

impl AaveStrategy {
    /// Begins a walk through the tokens, with the sender's next nonce: the pool is to take them
    /// from the liquidator.
    pub fn begin_approvals(&self, nonce: U256) -> (r: ApprovalRun)
        ensures
            r@ == (ApprovalRunView {
                tokens: self.tokens.order(),
                nonce: nonce@,
                owner: self.liquidator,
                spender: self.config.pool_address,
            }),
    {
        let tokens = self.tokens.keys().clone();
        assert(tokens@ =~= self.tokens.order());
        assert(tokens@.skip(0) =~= tokens@);
        ApprovalRun {
            tokens,
            next: 0,
            nonce,
            owner: self.liquidator,
            spender: self.config.pool_address,
        }
    }
}

/// How many allowances are zero.
pub open spec fn zeros(allowances: Seq<nat>) -> nat
    decreases allowances.len(),
{
    if allowances.len() == 0 {
        0
    } else {
        zeros(allowances.drop_last()) + if allowances.last() == 0 {
            1nat
        } else {
            0nat
        }
    }
}

/// Every token is asked once and in order, and the approvals use up one nonce after the other: the
/// nonce of the next approval is the first one plus the number of approvals so far. Owner and
/// spender stay the same.
pub proof fn law_approvals_use_nonces_in_turn(run: ApprovalRunView, allowances: Seq<nat>)
    requires
        allowances.len() <= run.tokens.len(),
    ensures
        run.after(allowances).tokens == run.tokens.skip(allowances.len() as int),
        run.after(allowances).nonce == run.nonce + zeros(allowances),
        run.after(allowances).owner == run.owner,
        run.after(allowances).spender == run.spender,
    decreases allowances.len(),
{
    if allowances.len() == 0 {
        assert(run.tokens.skip(0) =~= run.tokens);
    } else {
        law_approvals_use_nonces_in_turn(run, allowances.drop_last());
        assert(run.tokens.skip(allowances.len() - 1).drop_first() =~= run.tokens.skip(
            allowances.len() as int,
        ));
    }
}

/// With the allowance of a token known the walk goes on to the token behind it. A token without
/// allowance uses up one nonce, and any other token none.
pub proof fn law_one_approval(run: ApprovalRunView, allowance: nat)
    requires
        run.tokens.len() > 0,
    ensures
        seq![run.tokens[0]] + run.answered(allowance).tokens == run.tokens,
        allowance == 0 ==> run.answered(allowance).nonce == run.nonce + 1,
        allowance > 0 ==> run.answered(allowance).nonce == run.nonce,
        run.answered(allowance).owner == run.owner,
        run.answered(allowance).spender == run.spender,
{
    assert(seq![run.tokens[0]] + run.answered(allowance).tokens =~= run.tokens);
}

} // verus!
