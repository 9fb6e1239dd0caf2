//! The store of settings: values under keys, a rule for each key that has
//! one, and the listeners to be told when a value changes.
use crate::lines::{line_for, line_of, parse_line, parsed_line};
use crate::params::{filtered, Listener, ParamRule, RuleModel};
use crate::table::{has_key, law_put, lookup, put, Table};
use crate::text::{chars_of, slice, starts_with, strip, text_of, trimmed, Strip};
use vstd::prelude::*;

verus! {

/// Whether a key is read-only: a value that was stored under such a key is
/// never replaced.
pub open spec fn read_only(key: Seq<char>) -> bool {
    "ro."@.is_prefix_of(key)
}

/// Whether `pattern` stands for every key with a given beginning: it ends in
/// a star.
pub open spec fn is_wild_card(pattern: Seq<char>) -> bool {
    pattern.len() > 0 && pattern.last() == '*'
}

/// The listeners of `groups` whose beginning `key` has, group after group.
pub open spec fn wild(groups: Seq<(Seq<char>, Seq<Listener>)>, key: Seq<char>) -> Seq<Listener>
    decreases groups.len(),
{
    if groups.len() == 0 {
        Seq::empty()
    } else {
        wild(groups.drop_last(), key) + if groups.last().0.is_prefix_of(key) {
            groups.last().1
        } else {
            Seq::empty()
        }
    }
}

/// The listeners that `groups` has under `key`.
pub open spec fn listening(groups: Seq<(Seq<char>, Seq<Listener>)>, key: Seq<char>) -> Seq<
    Listener,
> {
    match lookup(groups, key) {
        Some(listeners) => listeners,
        None => Seq::empty(),
    }
}

/// A store of settings, as plain values.
pub struct ManagerModel {
    /// The values, each under its key.
    pub params: Seq<(Seq<char>, Seq<char>)>,
    /// The rules, each under the key that it is for.
    pub rules: Seq<(Seq<char>, RuleModel)>,
    /// The listeners for one key, under that key.
    pub listeners: Seq<(Seq<char>, Seq<Listener>)>,
    /// The listeners for all keys with one beginning, under that beginning.
    pub wild_card_listeners: Seq<(Seq<char>, Seq<Listener>)>,
    /// What each listener was registered for; a listener's number is its
    /// place here.
    pub registered: Seq<Seq<char>>,
}

impl ManagerModel {
    /// An empty store.
    pub open spec fn fresh() -> ManagerModel {
        ManagerModel {
            params: Seq::empty(),
            rules: Seq::empty(),
            listeners: Seq::empty(),
            wild_card_listeners: Seq::empty(),
            registered: Seq::empty(),
        }
    }

    /// The rule for `key`, if one was set, can be applied to `value`.
    pub open spec fn can_filter(self, key: Seq<char>, value: Seq<char>) -> bool {
        match lookup(self.rules, key) {
            Some(rule) => rule.can_filter(value),
            None => true,
        }
    }

    /// `raw` can be set under `key`: the rule for `key` can be applied to
    /// `raw` without the white space around it.
    pub open spec fn can_set(self, key: Seq<char>, raw: Seq<char>) -> bool {
        self.can_filter(key, trimmed(raw))
    }

    /// `line` can be read: if it holds a value that is then set, that value
    /// can be set.
    pub open spec fn can_restore(self, line: Seq<char>, override_existing: bool) -> bool {
        match parsed_line(line) {
            Some((key, value)) => override_existing || !has_key(self.params, key) ==> self.can_set(
                key,
                value,
            ),
            None => true,
        }
    }

    /// The value that is stored when `raw` is set under `key`, if one is:
    /// `raw` without the white space around it, as the rule for `key` makes
    /// it. Nothing is stored if the rule rejects the value, or if the key is
    /// read-only and has a value.
    pub open spec fn stored(self, key: Seq<char>, raw: Seq<char>) -> Option<Seq<char>> {
        if has_key(self.params, key) && read_only(key) {
            None
        } else {
            filtered(lookup(self.rules, key), trimmed(raw))
        }
    }

    /// The store after `raw` was set under `key`.
    pub open spec fn set(self, key: Seq<char>, raw: Seq<char>) -> ManagerModel {
        match self.stored(key, raw) {
            Some(value) => ManagerModel { params: put(self.params, key, value), ..self },
            None => self,
        }
    }

    /// The listeners to be told when `raw` is set under `key`: none if
    /// nothing is stored or the value stays the same; else those for a
    /// beginning of `key`, then those for `key` itself.
    pub open spec fn notified(self, key: Seq<char>, raw: Seq<char>) -> Seq<Listener> {
        match self.stored(key, raw) {
            Some(value) => if lookup(self.params, key) == Some(value) {
                Seq::empty()
            } else {
                wild(self.wild_card_listeners, key) + listening(self.listeners, key)
            },
            None => Seq::empty(),
        }
    }

    /// The store after a listener was registered for `pattern`: its number
    /// is the number of registrations before it.
    pub open spec fn register(self, pattern: Seq<char>) -> ManagerModel {
        let listener = Listener { listener_id: self.registered.len() as usize };
        if is_wild_card(pattern) {
            let beginning = pattern.drop_last();
            ManagerModel {
                wild_card_listeners: put(
                    self.wild_card_listeners,
                    beginning,
                    listening(self.wild_card_listeners, beginning).push(listener),
                ),
                registered: self.registered.push(pattern),
                ..self
            }
        } else {
            ManagerModel {
                listeners: put(
                    self.listeners,
                    pattern,
                    listening(self.listeners, pattern).push(listener),
                ),
                registered: self.registered.push(pattern),
                ..self
            }
        }
    }

    /// The store after `line` was read: the value of a well-formed line is
    /// set under its key, unless the key has a value and `override_existing`
    /// is not set.
    pub open spec fn restore(self, line: Seq<char>, override_existing: bool) -> ManagerModel {
        match parsed_line(line) {
            Some((key, value)) => if override_existing || !has_key(self.params, key) {
                self.set(key, value)
            } else {
                self
            },
            None => self,
        }
    }

    /// The key of `line` and the listeners to be told when it is read, if the
    /// line is well formed.
    pub open spec fn restore_told(self, line: Seq<char>, override_existing: bool) -> Option<
        (Seq<char>, Seq<Listener>),
    > {
        match parsed_line(line) {
            Some((key, value)) => if override_existing || !has_key(self.params, key) {
                Some((key, self.notified(key, value)))
            } else {
                Some((key, Seq::empty()))
            },
            None => None,
        }
    }

    /// The rule for `key`: the one that was set, or else the rule that
    /// accepts any text.
    pub open spec fn rule(self, key: Seq<char>) -> RuleModel {
        match lookup(self.rules, key) {
            Some(rule) => rule,
            None => RuleModel::any(),
        }
    }
}

/// What came of reading one well-formed line.
#[derive(Clone)]
pub struct Restored {
    /// The key that the line holds.
    pub key: String,
    /// The listeners to be told of the value that is now stored under the
    /// key.
    pub listeners: Vec<Listener>,
}

impl View for Restored {
    type V = (Seq<char>, Seq<Listener>);

    open spec fn view(&self) -> (Seq<char>, Seq<Listener>) {
        (self.key@, self.listeners@)
    }
}

/// The store of settings.
#[derive(Clone)]
pub struct ParameterManager {
    params: Table<String>,
    param_rules: Table<ParamRule>,
    listeners: Table<Vec<Listener>>,
    wild_card_listeners: Table<Vec<Listener>>,
    listener_id_reverse: Vec<String>,
}

impl View for ParameterManager {
    type V = ManagerModel;

    closed spec fn view(&self) -> ManagerModel {
        ManagerModel {
            params: self.params@,
            rules: self.param_rules@,
            listeners: self.listeners@,
            wild_card_listeners: self.wild_card_listeners@,
            registered: self.listener_id_reverse@.map_values(|pattern: String| pattern@),
        }
    }
}

/// Appends `more` to `all`.
fn extend(all: &mut Vec<Listener>, more: &Vec<Listener>)
    ensures
        final(all)@ == old(all)@ + more@,
{
    let ghost before = all@;
    let mut i: usize = 0;
    while i < more.len()
        invariant
            i <= more.len(),
            all@ == before + more@.take(i as int),
        decreases more.len() - i,
    {
        all.push(more[i]);
        i += 1;
    }
}

/// Puts `listener` behind the listeners that `groups` has under `key`.
fn enlist(groups: &mut Table<Vec<Listener>>, key: String, listener: Listener)
    ensures
        final(groups)@ == put(old(groups)@, key@, listening(old(groups)@, key@).push(listener)),
{
    let mut group: Vec<Listener> = Vec::new();
    if let Some(present) = groups.get(&key) {
        extend(&mut group, present);
    }
    group.push(listener);
    groups.insert(key, group);
}

impl ParameterManager {
    /// An empty store.
    pub fn new() -> (manager: Self)
        ensures
            manager@ == ManagerModel::fresh(),
    {
        let manager = ParameterManager {
            params: Table::new(),
            param_rules: Table::new(),
            listeners: Table::new(),
            wild_card_listeners: Table::new(),
            listener_id_reverse: Vec::new(),
        };
        proof {
            assert(manager@.registered =~= Seq::<Seq<char>>::empty());
        }
        manager
    }

    /// Whether the rule for `key`, if one was set, can be applied to `value`:
    /// a whole number cannot be brought within bounds that are out of order.
    pub fn can_filter(&self, key: &str, value: &str) -> (can: bool)
        ensures
            can == self@.can_filter(key@, value@),
    {
        let key = key.to_owned();
        let value = value.to_owned();
        match self.param_rules.get(&key) {
            Some(rule) => rule.can_filter(&value),
            None => true,
        }
    }

    /// Whether `value` can be set under `key`.
    pub fn can_set(&self, key: &str, value: &str) -> (can: bool)
        ensures
            can == self@.can_set(key@, value@),
    {
        let value = text_of(&strip(&chars_of(value), Strip::WhiteSpace));
        self.can_filter(key, value.as_str())
    }

    /// Whether `line` can be read.
    pub fn can_restore_line(&self, line: &str, override_existing: bool) -> (can: bool)
        ensures
            can == self@.can_restore(line@, override_existing),
    {
        match parse_line(line) {
            Some(param) => {
                if override_existing || !self.params.contains_key(&param.key) {
                    self.can_set(param.key.as_str(), param.value.as_str())
                } else {
                    true
                }
            },
            None => true,
        }
    }

    /// Applies the rule for `key`, if one was set, to `value`, to which it
    /// can be applied. Returns whether the value is accepted; a value that
    /// is accepted is left as it is to be stored, a value that is rejected
    /// is left as it was.
    pub fn filter_value_with_rule(&self, key: &str, value: &mut String) -> (accepted: bool)
        requires
            self@.can_filter(key@, old(value)@),
        ensures
            match filtered(lookup(self@.rules, key@), old(value)@) {
                Some(stored) => accepted && final(value)@ == stored,
                None => !accepted && final(value)@ == old(value)@,
            },
    {
        let key = key.to_owned();
        match self.param_rules.get(&key) {
            Some(rule) => rule.filter(value),
            None => true,
        }
    }

    /// The listeners to be told of a new value under `key`.
    fn listeners_for(&self, key: &str) -> (told: Vec<Listener>)
        ensures
            told@ == wild(self@.wild_card_listeners, key@) + listening(self@.listeners, key@),
    {
        let chars = chars_of(key);
        let mut told: Vec<Listener> = Vec::new();
        let groups = &self.wild_card_listeners;
        let mut i: usize = 0;
        while i < groups.len()
            invariant
                i <= groups@.len(),
                chars@ == key@,
                told@ == wild(groups@.take(i as int), key@),
            decreases groups@.len() - i,
        {
            let beginning = chars_of(groups.key_at(i).as_str());
            proof {
                assert(groups@.take(i + 1).drop_last() =~= groups@.take(i as int));
            }
            if starts_with(&chars, &beginning) {
                extend(&mut told, groups.value_at(i));
            }
            i += 1;
        }
        proof {
            assert(groups@.take(groups@.len() as int) =~= groups@);
        }
        let owned = key.to_owned();
        if let Some(exact) = self.listeners.get(&owned) {
            extend(&mut told, exact);
        }
        told
    }

    /// Sets `value`, which can be set, without the white space around it,
    /// under `key`, as far as the rule for `key` and the key itself allow.
    /// Returns the listeners to be told, in the order in which they are to
    /// be told; the value to tell them is the one that is now stored under
    /// `key`.
    pub fn set_parameter(&mut self, key: &str, value: &str) -> (told: Vec<Listener>)
        requires
            old(self)@.can_set(key@, value@),
        ensures
            final(self)@ == old(self)@.set(key@, value@),
            told@ == old(self)@.notified(key@, value@),
    {
        let mut value = text_of(&strip(&chars_of(value), Strip::WhiteSpace));
        let owned = key.to_owned();
        if !self.filter_value_with_rule(key, &mut value) {
            return Vec::new();
        }
        let mut changed = true;
        if let Some(current) = self.params.get(&owned) {
            if starts_with(&chars_of(key), &chars_of("ro.")) {
                return Vec::new();
            }
            changed = *current != value;
        }
        let told = if changed {
            self.listeners_for(key)
        } else {
            Vec::new()
        };
        self.params.insert(owned, value);
        told
    }

    /// Registers a listener for `key`, or, if `key` ends in a star, for every
    /// key that begins with what stands before the star. Returns the number
    /// of the listener.
    pub fn register_callback(&mut self, key: &str) -> (listener_id: usize)
        ensures
            final(self)@ == old(self)@.register(key@),
            listener_id == old(self)@.registered.len(),
    {
        let ghost before = self@;
        let listener_id = self.listener_id_reverse.len();
        let listener = Listener { listener_id };
        let chars = chars_of(key);
        let n = chars.len();
        if n > 0 && chars[n - 1] == '*' {
            let beginning = text_of(&slice(&chars, 0, n - 1));
            enlist(&mut self.wild_card_listeners, beginning, listener);
        } else {
            enlist(&mut self.listeners, key.to_owned(), listener);
        }
        self.listener_id_reverse.push(key.to_owned());
        proof {
            assert(self@.registered =~= before.register(key@).registered);
        }
        listener_id
    }

    /// The text under `key`, or `default_value` if there is none.
    pub fn get_parameter_string(&self, key: &str, default_value: &str) -> (value: String)
        ensures
            value@ == match lookup(self@.params, key@) {
                Some(stored) => stored,
                None => default_value@,
            },
    {
        let key = key.to_owned();
        match self.params.get(&key) {
            Some(stored) => stored.clone(),
            None => default_value.to_owned(),
        }
    }

    /// Whether the text under `key` is `true`; `default_value` if there is no
    /// text under `key`.
    pub fn get_parameter_bool(&self, key: &str, default_value: bool) -> (value: bool)
        ensures
            value == match lookup(self@.params, key@) {
                Some(stored) => stored == "true"@,
                None => default_value,
            },
    {
        let key = key.to_owned();
        match self.params.get(&key) {
            Some(stored) => *stored == "true".to_owned(),
            None => default_value,
        }
    }

    /// Whether a value is stored under `key`.
    pub fn contains_key(&self, key: &str) -> (found: bool)
        ensures
            found == has_key(self@.params, key@),
    {
        let key = key.to_owned();
        self.params.contains_key(&key)
    }

    /// Sets the rule for `key`, in place of the one that was set before.
    pub fn set_parameter_rule(&mut self, key: &str, rule: ParamRule)
        ensures
            final(self)@ == (ManagerModel {
                rules: put(old(self)@.rules, key@, rule@),
                ..old(self)@
            }),
    {
        self.param_rules.insert(key.to_owned(), rule);
    }

    /// The rule for `key`: the one that was set, or else the rule that
    /// accepts any text.
    pub fn get_parameter_rule(&self, key: &str) -> (rule: ParamRule)
        ensures
            rule@ == self@.rule(key@),
    {
        let key = key.to_owned();
        match self.param_rules.get(&key) {
            Some(rule) => rule.copy(),
            None => ParamRule::any(),
        }
    }

    /// The stored settings, one line for each, in the order in which their
    /// keys came.
    pub fn store_lines(&self) -> (lines: Vec<String>)
        ensures
            lines@.len() == self@.params.len(),
            forall|i: int|
                0 <= i < lines@.len() ==> (#[trigger] lines@[i])@ == line_of(
                    self@.params[i].0,
                    self@.params[i].1,
                ),
    {
        let mut lines: Vec<String> = Vec::new();
        let mut i: usize = 0;
        while i < self.params.len()
            invariant
                i <= self.params@.len(),
                lines@.len() == i,
                forall|k: int|
                    0 <= k < i ==> (#[trigger] lines@[k])@ == line_of(
                        self.params@[k].0,
                        self.params@[k].1,
                    ),
            decreases self.params@.len() - i,
        {
            lines.push(line_for(self.params.key_at(i).as_str(), self.params.value_at(i).as_str()));
            i += 1;
        }
        lines
    }

    /// Reads one line, which can be read. A line that is not well formed
    /// changes nothing and gives nothing. The value of a well-formed line is
    /// set under its key as `set_parameter` sets it, unless the key has a
    /// value and `override_existing` is not set.
    pub fn restore_line(&mut self, line: &str, override_existing: bool) -> (restored: Option<
        Restored,
    >)
        requires
            old(self)@.can_restore(line@, override_existing),
        ensures
            final(self)@ == old(self)@.restore(line@, override_existing),
            match restored {
                Some(read) => old(self)@.restore_told(line@, override_existing) == Some(read@),
                None => old(self)@.restore_told(line@, override_existing) is None,
            },
    {
        match parse_line(line) {
            None => None,
            Some(param) => {
                let listeners = if override_existing || !self.params.contains_key(&param.key) {
                    self.set_parameter(param.key.as_str(), param.value.as_str())
                } else {
                    Vec::new()
                };
                Some(Restored { key: param.key, listeners })
            },
        }
    }
}

/// A value that is stored is read back under its key, and the values under
/// all other keys are as before. A read-only key that has a value keeps it,
/// and nobody is told.
pub proof fn law_set_then_get(store: ManagerModel, key: Seq<char>, raw: Seq<char>, other: Seq<char>)
    ensures
        store.stored(key, raw) matches Some(value) ==> lookup(store.set(key, raw).params, key)
            == Some(value),
        other != key ==> lookup(store.set(key, raw).params, other) == lookup(store.params, other),
        has_key(store.params, key) && read_only(key) ==> store.set(key, raw) == store
            && store.notified(key, raw) == Seq::<Listener>::empty(),
        store.stored(key, raw) is None ==> store.set(key, raw) == store,
{
    if let Some(value) = store.stored(key, raw) {
        law_put(store.params, key, value, other);
    }
}

} // verus!
