//! Tests of the transactional core: deploy, transfer, approve and
//! transfer-from scenarios.

use erc20::account::Account;
use erc20::amount::Amount;
use erc20::error::Error;
use erc20::token::Token;

const NAME: &str = "ERC20";
const SYMBOL: &str = "ERC";
const DECIMALS: u8 = 8;
const TOTAL_SUPPLY: u64 = 1000;

fn ali() -> Account {
    Account::new([3u8; 32])
}

fn bob() -> Account {
    Account::new([6u8; 32])
}

fn joe() -> Account {
    Account::new([9u8; 32])
}

fn deploy() -> Token {
    Token::deploy(
        NAME.to_string(),
        SYMBOL.to_string(),
        DECIMALS,
        Amount::from_u64(TOTAL_SUPPLY),
        &ali(),
    )
}

#[test]
fn test_erc20_deploy() {
    let t = deploy();
    assert_eq!(t.name(), NAME);
    assert_eq!(t.symbol(), SYMBOL);
    assert_eq!(t.decimals(), DECIMALS);
    assert_eq!(t.balance_of(&ali()), Amount::from_u64(TOTAL_SUPPLY));
}

#[test]
fn test_erc20_transfer() {
    let transfer_amount_1 = Amount::from_u64(42);
    let transfer_amount_2 = Amount::from_u64(20);

    let mut t = deploy();
    // ali -> bob
    assert_eq!(t.balance_of(&bob()), Amount::zero());
    assert_eq!(t.balance_of(&ali()), Amount::from_u64(TOTAL_SUPPLY));
    t.transfer(&ali(), &bob(), transfer_amount_1).unwrap();
    assert_eq!(t.balance_of(&bob()), transfer_amount_1);
    assert_eq!(t.balance_of(&ali()), Amount::from_u64(TOTAL_SUPPLY - 42));

    // bob -> ali
    t.transfer(&bob(), &ali(), transfer_amount_2).unwrap();
    assert_eq!(t.balance_of(&ali()), Amount::from_u64(TOTAL_SUPPLY - 42 + 20));
    assert_eq!(t.balance_of(&bob()), Amount::from_u64(42 - 20));
}

#[test]
fn should_transfer_full_amount() {
    let mut t = deploy();

    let initial_ali_balance = t.balance_of(&ali());
    assert_eq!(t.balance_of(&bob()), Amount::zero());

    t.transfer(&ali(), &bob(), initial_ali_balance).unwrap();

    assert_eq!(t.balance_of(&bob()), initial_ali_balance);
    assert_eq!(t.balance_of(&ali()), Amount::zero());

    t.transfer(&bob(), &ali(), initial_ali_balance).unwrap();

    assert_eq!(t.balance_of(&bob()), Amount::zero());
    assert_eq!(t.balance_of(&ali()), initial_ali_balance);
}

#[test]
fn test_erc20_transfer_from() {
    let approve_amount = Amount::from_u64(100);
    let transfer_amount = Amount::from_u64(42);

    let mut t = deploy();

    let owner = ali();
    let spender = bob();
    let recipient = joe();

    let owner_balance_before = t.balance_of(&owner);
    t.approve(&owner, &spender, approve_amount).unwrap();
    assert_eq!(t.allowance(&owner, &spender), approve_amount);

    t.transfer_from(&spender, &owner, &recipient, transfer_amount).unwrap();

    assert_eq!(
        t.balance_of(&owner),
        owner_balance_before.checked_sub(&transfer_amount).unwrap(),
        "should decrease balance of the owner"
    );
    assert_eq!(
        t.allowance(&owner, &spender),
        approve_amount.checked_sub(&transfer_amount).unwrap(),
        "should decrease allowance of the spender"
    );
    assert_eq!(
        t.balance_of(&recipient),
        transfer_amount,
        "recipient should receive tokens"
    );
}

#[test]
fn should_have_description_properties() {
    let t = Token::deploy(
        "Token".to_string(),
        "TOK".to_string(),
        255,
        Amount::from_u64(TOTAL_SUPPLY),
        &ali(),
    );
    assert_eq!(t.name(), "Token", "should query name property of the contract");
    assert_eq!(t.symbol(), "TOK", "should query symbol property of the contract");
    assert_eq!(t.decimals(), 255, "should query decimals property of the contract");
}

#[test]
fn deploy_gives_other_accounts_zero_balance() {
    let t = deploy();
    assert_eq!(t.balance_of(&ali()), Amount::from_u64(TOTAL_SUPPLY));
    assert_eq!(t.balance_of(&bob()), Amount::zero());
    assert_eq!(t.balance_of(&joe()), Amount::zero());
    assert_eq!(t.allowance(&ali(), &bob()), Amount::zero());
}

#[test]
fn transfer_with_insufficient_balance_fails() {
    let mut t = deploy();
    let too_much = Amount::from_u64(TOTAL_SUPPLY + 1);

    let result = t.transfer(&ali(), &bob(), too_much);

    assert_eq!(result, Err(Error::InsufficientBalance));
    assert_eq!(t.balance_of(&ali()), Amount::from_u64(TOTAL_SUPPLY));
    assert_eq!(t.balance_of(&bob()), Amount::zero());
}

#[test]
fn transfer_from_over_allowance_fails() {
    let mut t = deploy();
    t.approve(&ali(), &bob(), Amount::from_u64(100)).unwrap();

    let result = t.transfer_from(&bob(), &ali(), &joe(), Amount::from_u64(101));

    assert_eq!(result, Err(Error::InsufficientAllowance));
    assert_eq!(t.balance_of(&ali()), Amount::from_u64(TOTAL_SUPPLY));
    assert_eq!(t.balance_of(&joe()), Amount::zero());
    assert_eq!(t.allowance(&ali(), &bob()), Amount::from_u64(100));
}

#[test]
fn transfer_from_over_balance_fails() {
    let mut t = deploy();
    // The allowance may exceed the owner's balance; the balance check then
    // blocks the spend on its own.
    t.approve(&ali(), &bob(), Amount::from_u64(2000)).unwrap();

    let result = t.transfer_from(&bob(), &ali(), &joe(), Amount::from_u64(1500));

    assert_eq!(result, Err(Error::InsufficientBalance));
    assert_eq!(t.balance_of(&ali()), Amount::from_u64(TOTAL_SUPPLY));
    assert_eq!(t.balance_of(&joe()), Amount::zero());
    assert_eq!(t.allowance(&ali(), &bob()), Amount::from_u64(2000));
}

#[test]
fn approve_overwrites_previous_allowance() {
    let mut t = deploy();

    t.approve(&ali(), &bob(), Amount::from_u64(7)).unwrap();
    t.approve(&ali(), &bob(), Amount::from_u64(100)).unwrap();
    assert_eq!(t.allowance(&ali(), &bob()), Amount::from_u64(100));

    t.approve(&ali(), &bob(), Amount::zero()).unwrap();
    assert_eq!(t.allowance(&ali(), &bob()), Amount::zero());
}

#[test]
fn approve_is_not_bounded_by_balance() {
    let mut t = deploy();
    let over_balance = t.balance_of(&ali()).checked_add(&Amount::from_u64(1)).unwrap();

    let result = t.approve(&ali(), &joe(), over_balance);

    assert_eq!(result, Ok(()));
    assert_eq!(t.allowance(&ali(), &joe()), over_balance);
}

#[test]
fn allowance_pairs_are_ordered() {
    let mut t = deploy();
    t.approve(&ali(), &bob(), Amount::from_u64(50)).unwrap();
    assert_eq!(t.allowance(&ali(), &bob()), Amount::from_u64(50));
    assert_eq!(t.allowance(&bob(), &ali()), Amount::zero());
}

#[test]
fn self_transfer_preserves_balance() {
    let mut t = deploy();

    let result = t.transfer(&ali(), &ali(), Amount::from_u64(TOTAL_SUPPLY));
    assert_eq!(result, Ok(()));
    assert_eq!(t.balance_of(&ali()), Amount::from_u64(TOTAL_SUPPLY));

    let result = t.transfer(&ali(), &ali(), Amount::from_u64(TOTAL_SUPPLY + 1));
    assert_eq!(result, Err(Error::InsufficientBalance));
    assert_eq!(t.balance_of(&ali()), Amount::from_u64(TOTAL_SUPPLY));
}

#[test]
fn reads_are_repeatable() {
    let mut t = deploy();
    t.approve(&ali(), &bob(), Amount::from_u64(5)).unwrap();

    assert_eq!(t.balance_of(&ali()), t.balance_of(&ali()));
    assert_eq!(t.balance_of(&joe()), t.balance_of(&joe()));
    assert_eq!(t.allowance(&ali(), &bob()), t.allowance(&ali(), &bob()));
    assert_eq!(t.allowance(&joe(), &bob()), t.allowance(&joe(), &bob()));
}

fn sum_of_balances(t: &Token) -> Amount {
    let mut sum = Amount::zero();
    for account in [ali(), bob(), joe()] {
        sum = sum.checked_add(&t.balance_of(&account)).unwrap();
    }
    sum
}

#[test]
fn conservation_across_transfers() {
    let mut t = deploy();
    let expected = Amount::from_u64(TOTAL_SUPPLY);

    assert_eq!(sum_of_balances(&t), expected);
    t.transfer(&ali(), &bob(), Amount::from_u64(300)).unwrap();
    assert_eq!(sum_of_balances(&t), expected);
    t.transfer(&bob(), &joe(), Amount::from_u64(120)).unwrap();
    assert_eq!(sum_of_balances(&t), expected);
    t.transfer(&joe(), &ali(), Amount::from_u64(1)).unwrap();
    assert_eq!(sum_of_balances(&t), expected);
    assert_eq!(t.total_supply(), expected);
}

#[test]
fn batch_balance_of_matches_individual_reads() {
    let mut t = deploy();
    t.transfer(&ali(), &bob(), Amount::from_u64(42)).unwrap();

    let addresses = vec![ali(), bob(), joe()];
    let balances = t.batch_balance_of(&addresses);

    assert_eq!(balances.len(), 3);
    assert_eq!(balances[0], Amount::from_u64(958));
    assert_eq!(balances[1], Amount::from_u64(42));
    assert_eq!(balances[2], Amount::zero());
}
