//! What words spell, what arithmetic on them gives, and what makes accounts alike.
use vstd::prelude::*;

use crate::acceptance_laws::left_different;
use crate::account::Account;
use crate::fixed::{pow256, tail_value, word_from_u64, FixedBytes, Word, B256};
use crate::info::{spec_empty_code_hash, AccountInfo, Bytecode};

verus! {

// --- words ---

/// Bytes spell a number with the most significant first: the number without its last byte is that
/// spelt by the bytes moved one place on, and the rest is the last byte.
pub proof fn law_value_is_big_endian<const N: usize>(s: FixedBytes<N>, moved: FixedBytes<N>)
    requires
        N > 0,
        moved.bytes@[0] == 0,
        forall|i: int| 1 <= i < N ==> #[trigger] moved.bytes@[i] == s.bytes@[i - 1],
    ensures
        s.value() == 256 * moved.value() + s.bytes@[N - 1],
{
    lemma_moved(s, moved, 0);
    let p = pow256((N - 1) as nat);
    assert(0 * p == 0);
    assert(tail_value(moved.bytes@, 0) == tail_value(moved.bytes@, 1));
}

proof fn lemma_moved<const N: usize>(s: FixedBytes<N>, moved: FixedBytes<N>, i: int)
    requires
        0 <= i < N,
        forall|i: int| 1 <= i < N ==> #[trigger] moved.bytes@[i] == s.bytes@[i - 1],
    ensures
        tail_value(s.bytes@, i) == 256 * tail_value(moved.bytes@, i + 1) + s.bytes@[N - 1],
    decreases N - i,
{
    reveal_with_fuel(pow256, 2);
    if i < N - 1 {
        lemma_moved(s, moved, i + 1);
        let d = s.bytes@[i] as nat;
        let p = pow256((N - 2 - i) as nat);
        assert(moved.bytes@[i + 1] == s.bytes@[i]);
        assert(pow256((N - 1 - i) as nat) == 256 * p);
        assert(d * (256 * p) == 256 * (d * p)) by (nonlinear_arith);
        assert(tail_value(moved.bytes@, i + 1) == d * p + tail_value(moved.bytes@, i + 2));
    } else {
        let (d, p) = (s.bytes@[i] as nat, pow256(0));
        assert(d * p == d) by (nonlinear_arith)
            requires
                p == 1,
        ;
        assert(tail_value(s.bytes@, N as int) == 0);
        assert(tail_value(moved.bytes@, N as int) == 0);
    }
}

/// There are 2^256 words, and 2^160 addresses.
pub proof fn law_number_of_words()
    ensures
        FixedBytes::<32>::modulus()
            == 0x1_0000_0000_0000_0000_0000_0000_0000_0000_0000_0000_0000_0000_0000_0000_0000_0000int,
        FixedBytes::<20>::modulus() == 0x1_0000_0000_0000_0000_0000_0000_0000_0000_0000_0000int,
{
    reveal_with_fuel(pow256, 33);
}

/// Zero is made of zero bytes only, and is the only word that spells nothing.
pub proof fn law_zero<const N: usize>(s: FixedBytes<N>, zero: FixedBytes<N>, is_zero: bool, i: int)
    requires
        call_ensures(FixedBytes::<N>::zero, (), zero),
        call_ensures(FixedBytes::<N>::is_zero, (&s,), is_zero),
        0 <= i < N,
    ensures
        zero.bytes@[i] == 0,
        zero.value() == 0,
        is_zero <==> s.value() == 0,
        is_zero ==> s.bytes@[i] == 0,
{
    s.law_zero_value();
}

/// Words are compared, taken from one another and added as the numbers they spell: a difference that
/// would be negative is refused, a sum that is too large starts over or stops at the largest word.
pub proof fn law_arithmetic<const N: usize>(
    a: FixedBytes<N>,
    b: FixedBytes<N>,
    less: bool,
    difference: Option<FixedBytes<N>>,
    wrapped: FixedBytes<N>,
    saturated: FixedBytes<N>,
)
    requires
        call_ensures(FixedBytes::<N>::less_than, (&a, &b), less),
        call_ensures(FixedBytes::<N>::checked_sub, (&a, &b), difference),
        call_ensures(FixedBytes::<N>::wrapping_add, (&a, &b), wrapped),
        call_ensures(FixedBytes::<N>::saturating_add, (&a, &b), saturated),
    ensures
        less <==> a.value() < b.value(),
        difference is Some <==> a.value() >= b.value(),
        difference is Some ==> difference->0.value() == a.value() - b.value(),
        wrapped.value() == (a.value() + b.value()) % FixedBytes::<N>::modulus(),
        a.value() + b.value() < FixedBytes::<N>::modulus() ==> saturated.value() == a.value()
            + b.value(),
        a.value() + b.value() >= FixedBytes::<N>::modulus() ==> saturated.value()
            == FixedBytes::<N>::modulus() - 1,
{
    a.law_value_bounded();
}

/// The word made of a number spells the number; one made of a last byte spells the byte.
pub proof fn law_made_words(x: u64, word: Word, last: u8, short: Word)
    requires
        call_ensures(word_from_u64, (x,), word),
        call_ensures(FixedBytes::<32>::with_last_byte, (last,), short),
    ensures
        word.value() == x,
        short.value() == last,
{
}

// --- accounts ---

/// An empty account has no nonce, no ether and no code, and the hash of no bytes. Contents with
/// another balance are the same but for that.
pub proof fn law_empty_account(
    empty: AccountInfo,
    info: AccountInfo,
    balance: Word,
    funded: AccountInfo,
)
    requires
        call_ensures(<AccountInfo as Default>::default, (), empty),
        call_ensures(AccountInfo::with_balance, (info, balance), funded),
    ensures
        empty.nonce == 0,
        empty.balance.value() == 0,
        empty.code_hash == spec_empty_code_hash(),
        empty.code == Some(Bytecode::Empty),
        funded.balance == balance,
        funded.nonce == info.nonce,
        funded.code_hash == info.code_hash,
        funded.code == info.code,
{
    empty.balance.law_zero_value();
}

/// An account is dead exactly if it has no nonce, no ether and no code; two have the same contents
/// exactly if they have the same nonce, ether and code hash.
pub proof fn law_account_contents(a: AccountInfo, b: AccountInfo, dead: bool, same: bool)
    requires
        call_ensures(AccountInfo::is_dead, (&a,), dead),
        call_ensures(AccountInfo::same_contents, (&a, &b), same),
    ensures
        dead <==> a.nonce == 0 && a.balance.value() == 0 && a.code_hash == spec_empty_code_hash(),
        same <==> a.nonce == b.nonce && a.balance.value() == b.balance.value() && a.code_hash
            == b.code_hash,
{
    a.balance.law_value_injective(b.balance);
}

/// An account just read is as read, with nothing marked. An account counts as changed exactly if it
/// came to exist or ceased to, or its nonce, ether or code hash is another than was found.
pub proof fn law_account_changes(
    info: Option<AccountInfo>,
    warm: bool,
    read: Account,
    account: Account,
    changed: bool,
    created: bool,
)
    requires
        call_ensures(Account::loaded, (info, warm), read),
        call_ensures(Account::is_changed, (&account,), changed),
        call_ensures(Account::is_created, (&account,), created),
    ensures
        read.original == info,
        read.present == info,
        read.is_warm == warm,
        !read.is_touched && !read.is_destroyed && !read.just_created && !read.code_changed,
        created <==> account.just_created,
        changed || account.just_created <==> left_different(account),
        account.original == account.present ==> !changed,
{
    if let (Some(found), Some(left)) = (account.original, account.present) {
        found.balance.law_value_injective(left.balance);
    }
}

/// The code that a transaction gave an account is the code of the account, under the hash of the
/// account, and none where the transaction gave it none.
pub proof fn law_changed_code(account: Account, r: Option<(B256, &Bytecode)>)
    requires
        call_ensures(Account::changed_code, (&account,), r),
    ensures
        match r {
            Some((hash, code)) => {
                &&& account.code_changed
                &&& account.present is Some
                &&& account.present->0.code_hash == hash
                &&& account.present->0.code == Some(*code)
            },
            None => !account.code_changed || account.present is None
                || account.present->0.code is None,
        },
{
}

/// Code holds the bytes it was made of, and counts as none exactly if there are none.
pub proof fn law_code(bytes: Vec<u8>, code: Bytecode)
    requires
        call_ensures(Bytecode::new, (bytes,), code),
    ensures
        code is Empty <==> bytes@.len() == 0,
        match code {
            Bytecode::Empty => bytes@.len() == 0,
            Bytecode::Code(shared) => shared@ == bytes@,
        },
{
}

} // verus!
