//! Finding the configuration kept in a named config map.
use vstd::prelude::*;

verus! {

/// The name of the config map that holds the configuration.
#[derive(Clone, Debug)]
pub struct ConfigFromConfigMap(pub String);

impl From<String> for ConfigFromConfigMap {
    fn from(val: String) -> (r: Self) {
        ConfigFromConfigMap(val)
    }
}

impl vstd::std_specs::convert::FromSpecImpl<String> for ConfigFromConfigMap {
    open spec fn obeys_from_spec() -> bool {
        true
    }

    open spec fn from_spec(v: String) -> Self {
        ConfigFromConfigMap(v)
    }
}

/// Why no configuration was found.
#[derive(Clone, Copy, Debug, PartialEq, Eq)]
pub enum ConfigError {
    /// No config map of that name holds a value that reads as a configuration.
    NoConfigurationMap,
}

/// A config map as listed: its name, and for each value of its data (in key
/// order) the configuration read from it, if the value reads as one; `None`
/// when the config map has no data.
pub struct ConfigMapEntry<T> {
    pub name: String,
    pub parsed: Option<Vec<Option<T>>>,
}

/// The mathematical form of a [`ConfigMapEntry`].
pub open spec fn entry_view<T>(e: ConfigMapEntry<T>) -> (Seq<char>, Option<Seq<Option<T>>>) {
    (
        e.name@,
        match e.parsed {
            Some(v) => Some(v@),
            None => None,
        },
    )
}

/// The mathematical form of a list of entries.
pub open spec fn entries_view<T>(maps: Seq<ConfigMapEntry<T>>) -> Seq<(Seq<char>, Option<Seq<Option<T>>>)> {
    maps.map_values(|e: ConfigMapEntry<T>| entry_view(e))
}

/// The first present value, if any.
pub open spec fn first_some<T>(s: Seq<Option<T>>) -> Option<T>
    decreases s.len(),
{
    if s.len() == 0 {
        None
    } else if s[0] is Some {
        s[0]
    } else {
        first_some(s.drop_first())
    }
}

/// The configuration that a config map's data holds: the first value that
/// reads as one.
pub open spec fn config_of<T>(data: Option<Seq<Option<T>>>) -> Option<T> {
    match data {
        Some(values) => first_some(values),
        None => None,
    }
}

/// The configuration of the first config map, in list order, that has the
/// name and holds a configuration.
pub open spec fn select_config<T>(name: Seq<char>, maps: Seq<(Seq<char>, Option<Seq<Option<T>>>)>) -> Option<T>
    decreases maps.len(),
{
    if maps.len() == 0 {
        None
    } else if maps[0].0 == name && config_of(maps[0].1) is Some {
        config_of(maps[0].1)
    } else {
        select_config(name, maps.drop_first())
    }
}

/// The first present value of `values`.
fn take_first_some<T>(values: Vec<Option<T>>) -> (res: Option<T>)
    ensures
        res == first_some(values@),
{
    let mut rest = values;
    while rest.len() > 0
        invariant
            first_some(values@) == first_some(rest@),
        decreases rest.len(),
    {
        let ghost before = rest@;
        let x = rest.remove(0);
        if x.is_some() {
            return x;
        }
        assert(rest@ =~= before.drop_first());
    }
    None
}

impl ConfigFromConfigMap {
    /// The configuration that a config map's data holds.
    pub fn config_from_cm<T>(&self, parsed: Option<Vec<Option<T>>>) -> (res: Option<T>)
        ensures
            res == config_of(match parsed {
                Some(v) => Some(v@),
                None => None,
            }),
    {
        match parsed {
            Some(values) => take_first_some(values),
            None => None,
        }
    }

    /// The configuration from the listed config maps: that of the first one
    /// with this name whose data holds a configuration.
    pub fn get_config<T>(&self, maps: Vec<ConfigMapEntry<T>>) -> (res: Result<T, ConfigError>)
        ensures
            match select_config(self.0@, entries_view(maps@)) {
                Some(c) => res == Ok::<T, ConfigError>(c),
                None => res == Err::<T, ConfigError>(ConfigError::NoConfigurationMap),
            },
    {
        let ghost views = entries_view(maps@);
        let mut rest = maps;
        while rest.len() > 0
            invariant
                views == entries_view(maps@),
                select_config(self.0@, views) == select_config(
                    self.0@,
                    entries_view(rest@),
                ),
            decreases rest.len(),
        {
            let ghost before = rest@;
            let entry = rest.remove(0);
            assert(entries_view(rest@) =~= entries_view(before).drop_first());
            assert(entries_view(before)[0] == entry_view(entry));
            if entry.name == self.0 {
                match self.config_from_cm(entry.parsed) {
                    Some(c) => {
                        return Ok(c);
                    },
                    None => {},
                }
            }
        }
        Err(ConfigError::NoConfigurationMap)
    }
}


/// Law: the value taken is the first present one, and none is taken
/// exactly when no value is present.
pub proof fn law_first_some_is_first_present<T>(s: Seq<Option<T>>)
    ensures
        first_some(s) is None <==> (forall|i: int| 0 <= i < s.len() ==> #[trigger] s[i] is None),
        first_some(s) is Some ==> exists|i: int|
            0 <= i < s.len() && #[trigger] s[i] == first_some(s) && (forall|j: int| 0 <= j < i ==> #[trigger] s[j] is None),
    decreases s.len(),
{
    if s.len() > 0 {
        let rest = s.drop_first();
        law_first_some_is_first_present(rest);
        if s[0] is None {
            if first_some(rest) is None {
                assert forall|i: int| 0 <= i < s.len() implies #[trigger] s[i] is None by {
                    if i > 0 {
                        assert(s[i] == rest[i - 1]);
                    }
                }
            } else {
                let i = choose|i: int|
                    0 <= i < rest.len() && #[trigger] rest[i] == first_some(rest) && (forall|j: int| 0 <= j < i ==> #[trigger] rest[j] is None);
                assert(s[i + 1] == rest[i]);
                assert forall|j: int| 0 <= j < i + 1 implies #[trigger] s[j] is None by {
                    if j > 0 {
                        assert(s[j] == rest[j - 1]);
                    }
                }
            }
        }
    }
}

/// Law: the configuration chosen comes from a config map with the name,
/// and every earlier config map either has another name or holds no
/// configuration; none is chosen exactly when no config map with the name
/// holds one.
pub proof fn law_select_config_first_named<T>(name: Seq<char>, maps: Seq<(Seq<char>, Option<Seq<Option<T>>>)>)
    ensures
        select_config(name, maps) is None <==> (forall|i: int|
            0 <= i < maps.len() ==> !(#[trigger] maps[i].0 == name && config_of(maps[i].1) is Some)),
        select_config(name, maps) is Some ==> exists|i: int|
            0 <= i < maps.len() && #[trigger] maps[i].0 == name && config_of(maps[i].1) == select_config(
                name,
                maps,
            ) && (forall|j: int| 0 <= j < i ==> !(#[trigger] maps[j].0 == name && config_of(maps[j].1) is Some)),
    decreases maps.len(),
{
    if maps.len() > 0 {
        let rest = maps.drop_first();
        law_select_config_first_named(name, rest);
        if !(maps[0].0 == name && config_of(maps[0].1) is Some) {
            if select_config(name, rest) is None {
                assert forall|i: int| 0 <= i < maps.len() implies !(#[trigger] maps[i].0 == name
                    && config_of(maps[i].1) is Some) by {
                    if i > 0 {
                        assert(maps[i] == rest[i - 1]);
                    }
                }
            } else {
                let i = choose|i: int|
                    0 <= i < rest.len() && #[trigger] rest[i].0 == name && config_of(rest[i].1) == select_config(name, rest)
                        && (forall|j: int| 0 <= j < i ==> !(#[trigger] rest[j].0 == name && config_of(rest[j].1) is Some));
                assert(maps[i + 1] == rest[i]);
                assert forall|j: int| 0 <= j < i + 1 implies !(#[trigger] maps[j].0 == name && config_of(
                    maps[j].1,
                ) is Some) by {
                    if j > 0 {
                        assert(maps[j] == rest[j - 1]);
                    }
                }
            }
        }
    }
}

} // verus!
