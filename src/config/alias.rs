//! The alias table: user-chosen names bound to literal version strings.
use vstd::prelude::*;
use crate::errors::NodeError;

verus! {

/// The map that a sequence of (name, version) pairs spells, later pairs winning.
pub open spec fn map_of(s: Seq<(Seq<char>, Seq<char>)>) -> Map<Seq<char>, Seq<char>>
    decreases s.len(),
{
    if s.len() == 0 {
        Map::empty()
    } else {
        map_of(s.drop_last()).insert(s.last().0, s.last().1)
    }
}

/// Pairs of strings as pairs of character sequences.
pub open spec fn spelled(s: Seq<(String, String)>) -> Seq<(Seq<char>, Seq<char>)> {
    s.map_values(|p: (String, String)| (p.0@, p.1@))
}

/// No name occurs twice.
pub open spec fn names_distinct(s: Seq<(Seq<char>, Seq<char>)>) -> bool {
    forall|i: int, j: int| 0 <= i < j < s.len() ==> s[i].0 != s[j].0
}

/// With distinct names, the map holds exactly the pairs of the sequence.
pub proof fn lemma_map_of(s: Seq<(Seq<char>, Seq<char>)>)
    requires
        names_distinct(s),
    ensures
        forall|k: Seq<char>|
            #[trigger] map_of(s).contains_key(k) <==> exists|i: int| 0 <= i < s.len() && s[i].0 == k,
        forall|i: int| 0 <= i < s.len() ==> #[trigger] map_of(s)[s[i].0] == s[i].1,
    decreases s.len(),
{
    if s.len() > 0 {
        let t = s.drop_last();
        lemma_map_of(t);
        assert(map_of(s) == map_of(t).insert(s.last().0, s.last().1));
        assert forall|k: Seq<char>| #[trigger] map_of(s).contains_key(k) <==> exists|i: int|
            0 <= i < s.len() && s[i].0 == k by {
            if map_of(s).contains_key(k) && k != s.last().0 {
                assert(map_of(t).contains_key(k));
                let i = choose|i: int| 0 <= i < t.len() && t[i].0 == k;
                assert(s[i].0 == k);
            }
            if exists|i: int| 0 <= i < s.len() && s[i].0 == k {
                let i = choose|i: int| 0 <= i < s.len() && s[i].0 == k;
                if i < t.len() {
                    assert(t[i].0 == k);
                }
            }
        }
        assert forall|i: int| 0 <= i < s.len() implies #[trigger] map_of(s)[s[i].0] == s[i].1 by {
            if i < t.len() {
                assert(t[i] == s[i]);
                assert(s[i].0 != s.last().0);
            }
        }
    }
}

/// Aliases in the order they were first set, and the document's `default` entry.
pub struct AliasConfig {
    aliases: Vec<(String, String)>,
    default: Option<String>,
}

impl AliasConfig {
    /// The stored pairs as sequences of characters.
    pub closed spec fn pairs(&self) -> Seq<(Seq<char>, Seq<char>)> {
        spelled(self.aliases@)
    }

    pub closed spec fn wf(&self) -> bool {
        names_distinct(self.pairs())
    }

    /// The document's separate `default` entry, kept so that it survives a rewrite.
    pub closed spec fn default_entry(&self) -> Option<Seq<char>> {
        match self.default {
            Some(d) => Some(d@),
            None => None,
        }
    }

    /// An empty table.
    pub fn new() -> (r: AliasConfig)
        ensures
            r.wf(),
            r@ == Map::<Seq<char>, Seq<char>>::empty(),
            r.default_entry() is None,
    {
        let r = AliasConfig { aliases: Vec::new(), default: None };
        assert(r.pairs() =~= Seq::empty());
        r
    }

    /// Builds a table from stored pairs (a later pair wins over an earlier one
    /// of the same name) and the document's `default` entry.
    pub fn from_parts(pairs: Vec<(String, String)>, default: Option<String>) -> (r: AliasConfig)
        ensures
            r.wf(),
            r@ == map_of(spelled(pairs@)),
            r.default_entry() == (match default {
                Some(d) => Some(d@),
                None => None,
            }),
    {
        let ghost given = spelled(pairs@);
        let mut r = AliasConfig { aliases: Vec::new(), default };
        proof {
            assert(r.pairs() =~= Seq::empty());
            assert(given.take(0) =~= Seq::empty());
        }
        let mut i: usize = 0;
        while i < pairs.len()
            invariant
                i <= pairs.len(),
                r.wf(),
                given == spelled(pairs@),
                r@ == map_of(given.take(i as int)),
                r.default_entry() == (match default {
                    Some(d) => Some(d@),
                    None => None,
                }),
            decreases pairs.len() - i,
        {
            let name = pairs[i].0.clone();
            let version = pairs[i].1.clone();
            set_alias(&mut r, name.as_str(), version.as_str());
            proof {
                assert(given.take(i + 1).drop_last() =~= given.take(i as int));
            }
            i = i + 1;
        }
        assert(given.take(pairs.len() as int) =~= given);
        r
    }

    /// The document's separate `default` entry.
    pub fn default_entry_value(&self) -> (r: Option<String>)
        ensures
            r matches Some(d) ==> self.default_entry() == Some(d@),
            r is None ==> self.default_entry() is None,
    {
        match &self.default {
            Some(d) => Some(d.clone()),
            None => None,
        }
    }

    /// Where `name` stands in the table.
    fn find(&self, name: &str) -> (r: Option<usize>)
        ensures
            r matches Some(i) ==> i < self.pairs().len() && self.pairs()[i as int].0 == name@,
            r is None ==> forall|i: int| 0 <= i < self.pairs().len() ==> self.pairs()[i].0 != name@,
    {
        let key = String::from_str(name);
        let mut i: usize = 0;
        while i < self.aliases.len()
            invariant
                i <= self.aliases.len(),
                key@ == name@,
                forall|j: int| 0 <= j < i ==> self.pairs()[j].0 != name@,
            decreases self.aliases.len() - i,
        {
            if self.aliases[i].0 == key {
                return Some(i);
            }
            i = i + 1;
        }
        None
    }
}

impl View for AliasConfig {
    type V = Map<Seq<char>, Seq<char>>;

    closed spec fn view(&self) -> Map<Seq<char>, Seq<char>> {
        map_of(self.pairs())
    }
}

/// Binds `name` to `version`, replacing any earlier binding of `name`.
pub fn set_alias(config: &mut AliasConfig, name: &str, version: &str)
    requires
        old(config).wf(),
    ensures
        final(config).wf(),
        final(config)@ == old(config)@.insert(name@, version@),
        final(config).default_entry() == old(config).default_entry(),
{
    let ghost before = config.pairs();
    proof {
        lemma_map_of(before);
    }
    match config.find(name) {
        Some(i) => {
            config.aliases.set(i, (String::from_str(name), String::from_str(version)));
            proof {
                let after = config.pairs();
                assert(after =~= before.update(i as int, (name@, version@)));
                lemma_map_of(after);
                assert(map_of(after) =~= map_of(before).insert(name@, version@)) by {
                    assert forall|k: Seq<char>| #[trigger] map_of(after).contains_key(k)
                        <==> map_of(before).insert(name@, version@).contains_key(k) by {
                        if exists|j: int| 0 <= j < before.len() && before[j].0 == k {
                            let j = choose|j: int| 0 <= j < before.len() && before[j].0 == k;
                            assert(after[j].0 == k);
                        }
                        if exists|j: int| 0 <= j < after.len() && after[j].0 == k {
                            let j = choose|j: int| 0 <= j < after.len() && after[j].0 == k;
                            if j != i {
                                assert(before[j].0 == k);
                            }
                        }
                    }
                    assert forall|k: Seq<char>| #[trigger] map_of(after).contains_key(k) implies
                        map_of(after)[k] == map_of(before).insert(name@, version@)[k] by {
                        let j = choose|j: int| 0 <= j < after.len() && after[j].0 == k;
                        assert(map_of(after)[after[j].0] == after[j].1);
                        if j != i {
                            assert(before[j] == after[j]);
                        }
                    }
                }
            }
        },
        None => {
            config.aliases.push((String::from_str(name), String::from_str(version)));
            proof {
                let after = config.pairs();
                assert(after =~= before.push((name@, version@)));
                assert(after.drop_last() =~= before);
            }
        },
    }
}

/// Drops the binding of `name`; fails when there is none.
pub fn remove_alias(config: &mut AliasConfig, name: &str) -> (r: Result<(), NodeError>)
    requires
        old(config).wf(),
    ensures
        final(config).wf(),
        final(config).default_entry() == old(config).default_entry(),
        r is Ok <==> old(config)@.contains_key(name@),
        r is Ok ==> final(config)@ == old(config)@.remove(name@),
        r matches Err(e) ==> e is AliasError && final(config)@ == old(config)@,
{
    let ghost before = config.pairs();
    proof {
        lemma_map_of(before);
    }
    match config.find(name) {
        Some(i) => {
            config.aliases.remove(i);
            proof {
                let after = config.pairs();
                assert(after =~= before.remove(i as int));
                assert(names_distinct(after)) by {
                    assert forall|a: int, b: int| 0 <= a < b < after.len() implies after[a].0
                        != after[b].0 by {
                        let a0 = if a < i { a } else { a + 1 };
                        let b0 = if b < i { b } else { b + 1 };
                        assert(after[a] == before[a0]);
                        assert(after[b] == before[b0]);
                    }
                }
                lemma_map_of(after);
                assert(map_of(after) =~= map_of(before).remove(name@)) by {
                    assert forall|k: Seq<char>| #[trigger] map_of(after).contains_key(k)
                        <==> map_of(before).remove(name@).contains_key(k) by {
                        if exists|j: int| 0 <= j < before.len() && before[j].0 == k {
                            let j = choose|j: int| 0 <= j < before.len() && before[j].0 == k;
                            if j < i {
                                assert(after[j].0 == k);
                            } else if j > i {
                                assert(after[j - 1].0 == k);
                            }
                        }
                        if exists|j: int| 0 <= j < after.len() && after[j].0 == k {
                            let j = choose|j: int| 0 <= j < after.len() && after[j].0 == k;
                            let j0 = if j < i { j } else { j + 1 };
                            assert(before[j0].0 == k);
                        }
                    }
                    assert forall|k: Seq<char>| #[trigger] map_of(after).contains_key(k) implies
                        map_of(after)[k] == map_of(before).remove(name@)[k] by {
                        let j = choose|j: int| 0 <= j < after.len() && after[j].0 == k;
                        let j0 = if j < i { j } else { j + 1 };
                        assert(after[j] == before[j0]);
                        assert(map_of(after)[after[j].0] == after[j].1);
                        assert(map_of(before)[before[j0].0] == before[j0].1);
                    }
                }
            }
            Ok(())
        },
        None => {
            let mut msg = String::from_str("Alias '");
            msg.append(name);
            msg.append("' not found");
            Err(NodeError::AliasError(msg))
        },
    }
}

/// The version bound to `name`, if any.
pub fn get_alias(config: &AliasConfig, name: &str) -> (r: Option<String>)
    requires
        config.wf(),
    ensures
        r.is_some() == config@.contains_key(name@),
        r matches Some(v) ==> v@ == config@[name@],
{
    proof {
        lemma_map_of(config.pairs());
    }
    match config.find(name) {
        Some(i) => Some(config.aliases[i].1.clone()),
        None => None,
    }
}

/// Every binding, in the order the names were first bound.
pub fn list_aliases(config: &AliasConfig) -> (r: Vec<(String, String)>)
    requires
        config.wf(),
    ensures
        names_distinct(spelled(r@)),
        map_of(spelled(r@)) == config@,
{
    let mut r: Vec<(String, String)> = Vec::new();
    let mut i: usize = 0;
    while i < config.aliases.len()
        invariant
            i <= config.aliases.len(),
            r@.len() == i,
            spelled(r@) == config.pairs().take(i as int),
        decreases config.aliases.len() - i,
    {
        let name = config.aliases[i].0.clone();
        let version = config.aliases[i].1.clone();
        let ghost before = r@;
        proof {
            assert(config.pairs()[i as int] == (name@, version@));
        }
        r.push((name, version));
        proof {
            assert(r@ == before.push((name, version)));
            assert(spelled(r@).len() == i + 1);
            assert(spelled(r@)[i as int] == (r@[i as int].0@, r@[i as int].1@));
            assert forall|j: int| 0 <= j < i implies spelled(r@)[j] == spelled(before)[j] by {
                assert(r@[j] == before[j]);
            }
            assert(spelled(r@) =~= config.pairs().take(
                i + 1,
            ));
        }
        i = i + 1;
    }
    assert(config.pairs().take(i as int) =~= config.pairs());
    r
}

/// The names bound to `version`, in the order they were first bound.
pub fn aliases_of(config: &AliasConfig, version: &str) -> (r: Vec<String>)
    requires
        config.wf(),
    ensures
        forall|i: int|
            0 <= i < r@.len() ==> config@.contains_key(#[trigger] r@[i]@) && config@[r@[i]@]
                == version@,
        forall|k: Seq<char>|
            config@.contains_key(k) && config@[k] == version@ ==> exists|i: int|
                0 <= i < r@.len() && r@[i]@ == k,
{
    proof {
        lemma_map_of(config.pairs());
    }
    let target = String::from_str(version);
    let mut r: Vec<String> = Vec::new();
    let mut i: usize = 0;
    while i < config.aliases.len()
        invariant
            i <= config.aliases.len(),
            config.wf(),
            target@ == version@,
            forall|j: int|
                0 <= j < r@.len() ==> config@.contains_key(#[trigger] r@[j]@) && config@[r@[j]@]
                    == version@,
            forall|j: int|
                0 <= j < i && #[trigger] config.pairs()[j].1 == version@ ==> exists|m: int|
                    0 <= m < r@.len() && r@[m]@ == config.pairs()[j].0,
        decreases config.aliases.len() - i,
    {
        if config.aliases[i].1 == target {
            let ghost before = r@;
            r.push(config.aliases[i].0.clone());
            proof {
                lemma_map_of(config.pairs());
                assert(r@[before.len() as int]@ == config.pairs()[i as int].0);
                assert(config.pairs()[i as int].1 == version@);
                assert(config@[config.pairs()[i as int].0] == config.pairs()[i as int].1);
                assert(config@.contains_key(config.pairs()[i as int].0));
                assert forall|j: int| 0 <= j < r@.len() implies config@.contains_key(
                    #[trigger] r@[j]@,
                ) && config@[r@[j]@] == version@ by {
                    if j < before.len() {
                        assert(r@[j] == before[j]);
                    }
                }
                assert forall|j: int| 0 <= j < i && #[trigger] config.pairs()[j].1 == version@
                    implies exists|m: int| 0 <= m < r@.len() && r@[m]@ == config.pairs()[j].0 by {
                    let m = choose|m: int| 0 <= m < before.len() && before[m]@ == config.pairs()[j].0;
                    assert(r@[m] == before[m]);
                }
            }
        }
        i = i + 1;
    }
    proof {
        lemma_map_of(config.pairs());
        assert forall|k: Seq<char>| config@.contains_key(k) && config@[k] == version@ implies exists|
            m: int,
        | 0 <= m < r@.len() && r@[m]@ == k by {
            let j = choose|j: int| 0 <= j < config.pairs().len() && config.pairs()[j].0 == k;
            assert(config.pairs()[j].1 == version@);
        }
    }
    r
}

/// `<base>/config/aliases.json`, the alias document.
pub fn get_alias_file(base: &str) -> (r: String)
    ensures
        r@ == base@ + "/config/aliases.json"@,
{
    let mut r = crate::config::get_config_dir(base);
    r.append("/aliases.json");
    proof {
        reveal_strlit("/config");
        reveal_strlit("/aliases.json");
        reveal_strlit("/config/aliases.json");
        assert(r@ =~= base@ + "/config/aliases.json"@);
    }
    r
}

} // verus!
