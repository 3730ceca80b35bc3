//! The rule set of the listener: named knock sequences, the command each one
//! releases, and the inactivity timeout shared by all of them.

use vstd::prelude::*;

verus! {

/// One knock rule: the ports to probe, in order, and the command template
/// that a completed knock releases.
#[derive(Debug)]
pub struct Rule {
    pub name: String,
    pub sequence: Vec<i32>,
    pub command: String,
}

/// Mathematical value of a [`Rule`].
pub struct RuleView {
    pub name: Seq<char>,
    pub sequence: Seq<i32>,
    pub command: Seq<char>,
}

impl View for Rule {
    type V = RuleView;

    open spec fn view(&self) -> RuleView {
        RuleView { name: self.name@, sequence: self.sequence@, command: self.command@ }
    }
}

impl Clone for Rule {
    fn clone(&self) -> (copy: Self)
        ensures
            copy@ == self@,
    {
        Rule {
            name: self.name.clone(),
            sequence: copy_ports(&self.sequence),
            command: self.command.clone(),
        }
    }
}

/// The listener's configuration: capture interface, inactivity timeout in
/// seconds, and the rules in declaration order.
#[derive(Debug)]
pub struct Config {
    pub interface: String,
    pub timeout: u64,
    pub rules: Vec<Rule>,
}

/// Mathematical value of a [`Config`].
pub struct ConfigView {
    pub interface: Seq<char>,
    pub timeout: u64,
    pub rules: Seq<RuleView>,
}

/// The values of a list of rules, position by position.
pub open spec fn rule_views(rules: Seq<Rule>) -> Seq<RuleView> {
    Seq::new(rules.len(), |i: int| rules[i]@)
}

impl View for Config {
    type V = ConfigView;

    open spec fn view(&self) -> ConfigView {
        ConfigView {
            interface: self.interface@,
            timeout: self.timeout,
            rules: rule_views(self.rules@),
        }
    }
}

impl Clone for Config {
    fn clone(&self) -> (copy: Self)
        ensures
            copy@ == self@,
    {
        let mut rules: Vec<Rule> = Vec::new();
        let mut i: usize = 0;
        while i < self.rules.len()
            invariant
                i <= self.rules.len(),
                rules.len() == i,
                forall|j: int| 0 <= j < i ==> rules[j]@ == self.rules[j]@,
            decreases self.rules.len() - i,
        {
            rules.push(self.rules[i].clone());
            i += 1;
        }
        let copy = Config { interface: self.interface.clone(), timeout: self.timeout, rules };
        proof {
            assert(rule_views(copy.rules@) =~= rule_views(self.rules@));
        }
        copy
    }
}

/// `port` occurs in the sequence of at least one rule.
pub open spec fn is_relevant(rules: Seq<RuleView>, port: i32) -> bool {
    exists|i: int, j: int|
        0 <= i < rules.len() && 0 <= j < rules[i].sequence.len()
            && #[trigger] rules[i].sequence[j] == port
}

/// The ports that occur in at least one rule's sequence.
pub open spec fn relevant_ports(rules: Seq<RuleView>) -> Set<i32> {
    Set::new(|port: i32| is_relevant(rules, port))
}

/// No two rules share a name.
pub open spec fn names_unique(rules: Seq<RuleView>) -> bool {
    forall|i: int, j: int|
        0 <= i < j < rules.len() ==> (#[trigger] rules[i]).name != (#[trigger] rules[j]).name
}

/// Every rule has at least one port to knock on.
pub open spec fn sequences_nonempty(rules: Seq<RuleView>) -> bool {
    forall|i: int| 0 <= i < rules.len() ==> (#[trigger] rules[i]).sequence.len() > 0
}

/// What a usable rule set satisfies: unique names and non-empty sequences.
pub open spec fn rules_valid(rules: Seq<RuleView>) -> bool {
    names_unique(rules) && sequences_nonempty(rules)
}

/// A copy of a port list.
pub fn copy_ports(ports: &Vec<i32>) -> (copy: Vec<i32>)
    ensures
        copy@ == ports@,
{
    let mut copy: Vec<i32> = Vec::new();
    let mut i: usize = 0;
    while i < ports.len()
        invariant
            i <= ports.len(),
            copy@ == ports@.subrange(0, i as int),
        decreases ports.len() - i,
    {
        copy.push(ports[i]);
        proof {
            assert(ports@.subrange(0, i as int).push(ports@[i as int]) =~= ports@.subrange(
                0,
                i + 1,
            ));
        }
        i += 1;
    }
    proof {
        assert(ports@.subrange(0, ports@.len() as int) =~= ports@);
    }
    copy
}

impl Config {
    /// Checks that rule names are unique and that no sequence is empty.
    pub fn is_valid(&self) -> (valid: bool)
        ensures
            valid == rules_valid(self@.rules),
    {
        let n: usize = self.rules.len();
        let mut i: usize = 0;
        while i < n
            invariant
                n == self.rules.len(),
                i <= n,
                forall|a: int| 0 <= a < i ==> self.rules[a].sequence@.len() > 0,
                forall|a: int, b: int|
                    0 <= a < b < i ==> self.rules[a].name@ != self.rules[b].name@,
            decreases n - i,
        {
            if self.rules[i].sequence.len() == 0 {
                proof {
                    assert(self@.rules[i as int].sequence.len() == 0);
                }
                return false;
            }
            let mut k: usize = 0;
            while k < i
                invariant
                    n == self.rules.len(),
                    k <= i < n,
                    forall|a: int| 0 <= a < k ==> self.rules[a].name@ != self.rules[i as int].name@,
                decreases i - k,
            {
                if self.rules[k].name == self.rules[i].name {
                    proof {
                        assert(self@.rules[k as int].name == self@.rules[i as int].name);
                    }
                    return false;
                }
                k += 1;
            }
            i += 1;
        }
        proof {
            assert forall|a: int| 0 <= a < self@.rules.len() implies (#[trigger] self@.rules[
                a
            ]).sequence.len() > 0 by {
                assert(self@.rules[a] == self.rules[a]@);
            }
            assert forall|a: int, b: int| 0 <= a < b < self@.rules.len() implies (
            #[trigger] self@.rules[a]).name != (#[trigger] self@.rules[b]).name by {
                assert(self@.rules[a] == self.rules[a]@);
                assert(self@.rules[b] == self.rules[b]@);
            }
        }
        true
    }
}

} // verus!
