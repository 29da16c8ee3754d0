//! A person and the accounts that the person owns.

use vstd::prelude::*;
use vstd::string::StringExecFns;
use crate::account::Account;
use crate::brokerage::BrokerageAccount;
use crate::checking::CheckingSavingsAccount;

verus! {

/// An account of either kind.
pub enum AnyAccount {
    Checking(CheckingSavingsAccount),
    Brokerage(BrokerageAccount),
}

impl AnyAccount {
    /// The name of the account.
    pub open spec fn spec_name(&self) -> Seq<char> {
        match self {
            AnyAccount::Checking(account) => account.spec_name(),
            AnyAccount::Brokerage(account) => account.spec_name(),
        }
    }

    /// The name of the account.
    pub fn get_name(&self) -> (n: &str)
        ensures
            n@ == self.spec_name(),
    {
        match self {
            AnyAccount::Checking(account) => account.get_name(),
            AnyAccount::Brokerage(account) => account.get_name(),
        }
    }
}

/// Someone who owns accounts.
pub struct Person {
    name: String,
    accounts: Vec<AnyAccount>,
}

/// The lines that list accounts, one for each.
pub open spec fn account_lines(accounts: Seq<AnyAccount>) -> Seq<char>
    decreases accounts.len(),
{
    if accounts.len() == 0 {
        Seq::empty()
    } else {
        account_lines(accounts.drop_last()) + "Account - "@ + accounts.last().spec_name() + "\n"@
    }
}

impl Person {
    /// The person's name.
    pub closed spec fn name(&self) -> Seq<char> {
        self.name@
    }

    /// The person's accounts, in the order in which they were added.
    pub closed spec fn accounts(&self) -> Seq<AnyAccount> {
        self.accounts@
    }

    /// A person of the given name who owns no account yet.
    pub fn new(name: &str) -> (person: Self)
        ensures
            person.name() == name@,
            person.accounts() == Seq::<AnyAccount>::empty(),
    {
        Person { name: String::from_str(name), accounts: Vec::new() }
    }

    /// Adds an account behind those that the person owns already.
    pub fn add_account(&mut self, account: AnyAccount)
        ensures
            final(self).name() == old(self).name(),
            final(self).accounts() == old(self).accounts().push(account),
    {
        self.accounts.push(account);
    }

    /// The text that lists the person's accounts.
    pub open spec fn spec_list_accounts(&self) -> Seq<char> {
        "Accounts owned by: "@ + self.name() + "\n"@ + account_lines(self.accounts())
    }

    /// Lists the person's accounts by name, one to a line, under a heading
    /// with the person's name.
    pub fn list_accounts(&self) -> (text: String)
        ensures
            text@ == self.spec_list_accounts(),
    {
        let mut text: String = String::from_str("Accounts owned by: ");
        text.append(self.name.as_str());
        text.append("\n");
        let ghost head = text@;
        let mut i: usize = 0;
        proof {
            assert(self.accounts@.take(0) =~= Seq::<AnyAccount>::empty());
            assert(text@ =~= head + account_lines(self.accounts@.take(0)));
        }
        while i < self.accounts.len()
            invariant
                0 <= i <= self.accounts.len(),
                head == "Accounts owned by: "@ + self.name@ + "\n"@,
                text@ == head + account_lines(self.accounts@.take(i as int)),
            decreases self.accounts.len() - i,
        {
            let ghost before = account_lines(self.accounts@.take(i as int));
            proof {
                assert(self.accounts@.take(i + 1).drop_last() =~= self.accounts@.take(i as int));
                assert(self.accounts@.take(i + 1).last() == self.accounts@[i as int]);
            }
            text.append("Account - ");
            text.append(self.accounts[i].get_name());
            text.append("\n");
            proof {
                assert(text@ =~= head + (before + "Account - "@
                    + self.accounts@[i as int].spec_name() + "\n"@));
            }
            i = i + 1;
        }
        proof {
            assert(self.accounts@.take(self.accounts.len() as int) =~= self.accounts@);
        }
        text
    }
}

} // verus!
