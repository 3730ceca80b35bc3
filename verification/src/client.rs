//! The knocking side: rules that say which host to knock on and at which
//! ports, and the plan of connection attempts for a rule.

use crate::command::string_views;
use crate::config::copy_ports;
use crate::text::{format_target, target};
use vstd::hash_map::StringHashMap;
use vstd::prelude::*;

verus! {

/// How long one connection attempt may take, in milliseconds. The outcome of
/// an attempt does not matter: the attempt is the knock.
pub const CONNECT_TIMEOUT_MILLIS: u64 = 100;

/// A knock to perform: the host and the ports to probe, in order.
#[derive(Debug)]
pub struct Rule {
    pub name: String,
    pub host: String,
    pub sequence: Vec<i32>,
}

/// Mathematical value of a [`Rule`].
pub struct RuleView {
    pub name: Seq<char>,
    pub host: Seq<char>,
    pub sequence: Seq<i32>,
}

impl View for Rule {
    type V = RuleView;

    open spec fn view(&self) -> RuleView {
        RuleView { name: self.name@, host: self.host@, sequence: self.sequence@ }
    }
}

impl Clone for Rule {
    fn clone(&self) -> (copy: Self)
        ensures
            copy@ == self@,
    {
        Rule {
            name: self.name.clone(),
            host: self.host.clone(),
            sequence: copy_ports(&self.sequence),
        }
    }
}

/// The rules a knocking client knows.
#[derive(Debug)]
pub struct Config {
    pub rules: Vec<Rule>,
}

/// The values of a list of rules, position by position.
pub open spec fn rule_views(rules: Seq<Rule>) -> Seq<RuleView> {
    Seq::new(rules.len(), |i: int| rules[i]@)
}

impl View for Config {
    type V = Seq<RuleView>;

    open spec fn view(&self) -> Seq<RuleView> {
        rule_views(self.rules@)
    }
}

/// The rules by name. Of two rules with one name, the one declared later
/// stands.
pub open spec fn rules_by_name(rules: Seq<RuleView>) -> Map<Seq<char>, RuleView>
    decreases rules.len(),
{
    if rules.len() == 0 {
        Map::empty()
    } else {
        rules_by_name(rules.drop_last()).insert(rules.last().name, rules.last())
    }
}

/// The connection attempts that make up a rule's knock: one `host:port` for
/// each port of the sequence, in order.
pub open spec fn targets_of(rule: RuleView) -> Seq<Seq<char>> {
    Seq::new(rule.sequence.len(), |i: int| target(rule.host, rule.sequence[i]))
}

/// Looks rules up by name and plans their knocks.
pub struct RuleExecutor {
    rules: StringHashMap<Rule>,
}

impl View for RuleExecutor {
    type V = Map<Seq<char>, RuleView>;

    closed spec fn view(&self) -> Map<Seq<char>, RuleView> {
        self.rules@.map_values(|r: Rule| r@)
    }
}

impl RuleExecutor {
    /// Indexes the rules of `config` by name.
    #[must_use]
    pub fn new(config: Config) -> (executor: RuleExecutor)
        ensures
            executor@ == rules_by_name(config@),
    {
        let ghost views = config@;
        let mut rules: StringHashMap<Rule> = StringHashMap::new();
        let mut i: usize = 0;
        proof {
            assert(views.take(0) =~= Seq::<RuleView>::empty());
            assert(rules@.map_values(|r: Rule| r@) =~= rules_by_name(views.take(0)));
        }
        while i < config.rules.len()
            invariant
                i <= config.rules.len(),
                views == config@,
                rules@.map_values(|r: Rule| r@) == rules_by_name(views.take(i as int)),
            decreases config.rules.len() - i,
        {
            let ghost before = rules@;
            let rule = config.rules[i].clone();
            let name = rule.name.clone();
            rules.insert(name, rule);
            proof {
                assert(views.take(i + 1).drop_last() =~= views.take(i as int));
                assert(views.take(i + 1).last() == rule@);
                assert(before.insert(rule.name@, rule).map_values(|r: Rule| r@)
                    =~= before.map_values(|r: Rule| r@).insert(rule.name@, rule@));
            }
            i += 1;
        }
        proof {
            assert(views.take(i as int) =~= views);
        }
        RuleExecutor { rules }
    }

    /// The rule called `name`, if there is one.
    pub fn find(&self, name: &str) -> (found: Option<&Rule>)
        ensures
            match found {
                Some(rule) => self@.dom().contains(name@) && rule@ == self@[name@],
                None => !self@.dom().contains(name@),
            },
    {
        self.rules.get(name)
    }

    /// The connection attempts to make for the rule called `name`, in
    /// order, or `None` where no rule has that name.
    pub fn plan(&self, name: &str) -> (targets: Option<Vec<String>>)
        ensures
            match targets {
                Some(list) => self@.dom().contains(name@) && string_views(list@) == targets_of(
                    self@[name@],
                ),
                None => !self@.dom().contains(name@),
            },
    {
        match self.find(name) {
            Some(rule) => Some(knock_targets(rule)),
            None => None,
        }
    }
}

/// The connection attempts that make up the knock of `rule`.
pub fn knock_targets(rule: &Rule) -> (targets: Vec<String>)
    ensures
        string_views(targets@) == targets_of(rule@),
{
    let mut targets: Vec<String> = Vec::new();
    let mut i: usize = 0;
    while i < rule.sequence.len()
        invariant
            i <= rule.sequence.len(),
            targets.len() == i,
            forall|k: int| 0 <= k < i ==> targets[k]@ == target(rule.host@, rule.sequence[k]),
        decreases rule.sequence.len() - i,
    {
        targets.push(format_target(rule.host.as_str(), rule.sequence[i]));
        i += 1;
    }
    proof {
        assert(string_views(targets@) =~= targets_of(rule@));
    }
    targets
}

} // verus!
