//! The provider-configuration model: provider records, the key-format
//! check, and the pure decisions of the add / switch / remove operations.
//! Reading and writing the settings file is I/O and stays with the
//! caller, which hands the parsed configuration in and writes the result
//! back.

use vstd::prelude::*;

use crate::text::{matches_at, starts_with_exact, str_to_chars};

verus! {

/// The mathematical value of a provider record.
pub ghost struct ProviderView {
    pub name: Seq<char>,
    pub base_url: Seq<char>,
    pub api_key: Seq<char>,
    pub model: Seq<char>,
    pub created_at: Seq<char>,
}

/// One configured model provider.
pub struct ClaudeProvider {
    pub name: String,
    pub base_url: String,
    pub api_key: String,
    pub model: String,
    pub created_at: String,
}

impl View for ClaudeProvider {
    type V = ProviderView;

    open spec fn view(&self) -> ProviderView {
        ProviderView {
            name: self.name@,
            base_url: self.base_url@,
            api_key: self.api_key@,
            model: self.model@,
            created_at: self.created_at@,
        }
    }
}

impl ClaudeProvider {
    /// An owned copy of this record with the same value.
    pub fn snapshot(&self) -> (r: ClaudeProvider)
        ensures
            r@ == self@,
    {
        ClaudeProvider {
            name: self.name.clone(),
            base_url: self.base_url.clone(),
            api_key: self.api_key.clone(),
            model: self.model.clone(),
            created_at: self.created_at.clone(),
        }
    }
}

/// The provider configuration: the registered providers and the name of
/// the currently selected one.
pub struct ClaudeConfig {
    pub providers: Vec<ClaudeProvider>,
    pub current_provider: Option<String>,
}

impl ClaudeConfig {
    /// The providers, in registry order.
    pub open spec fn providers_view(&self) -> Seq<ProviderView> {
        self.providers@.map_values(|p: ClaudeProvider| p@)
    }

    /// The selected provider's name.
    pub open spec fn current_view(&self) -> Option<Seq<char>> {
        match self.current_provider {
            Some(ref n) => Some(n@),
            None => None,
        }
    }
}

impl Default for ClaudeConfig {
    /// An empty configuration with nothing selected.
    fn default() -> (r: Self)
        ensures
            r.providers_view() == Seq::<ProviderView>::empty(),
            r.current_view().is_none(),
    {
        let r = ClaudeConfig { providers: Vec::new(), current_provider: None };
        proof {
            assert(r.providers_view() =~= Seq::<ProviderView>::empty());
        }
        r
    }
}

/// The first position in `s` whose provider carries `name`, or `-1`.
pub open spec fn provider_index(s: Seq<ProviderView>, name: Seq<char>) -> int
    decreases s.len(),
{
    if s.len() == 0 {
        -1
    } else if s[0].name == name {
        0
    } else {
        let r = provider_index(s.drop_first(), name);
        if r < 0 {
            -1
        } else {
            r + 1
        }
    }
}

/// `provider_index` finds exactly the first position carrying `name`.
pub proof fn lemma_provider_index(s: Seq<ProviderView>, name: Seq<char>)
    ensures
        provider_index(s, name) < 0 ==> forall|k: int|
            0 <= k < s.len() ==> (#[trigger] s[k]).name != name,
        provider_index(s, name) >= 0 ==> {
            &&& provider_index(s, name) < s.len()
            &&& s[provider_index(s, name)].name == name
            &&& forall|k: int| 0 <= k < provider_index(s, name) ==> (#[trigger] s[k]).name != name
        },
    decreases s.len(),
{
    if s.len() > 0 && s[0].name != name {
        lemma_provider_index(s.drop_first(), name);
        assert forall|k: int| 1 <= k < s.len() implies s.drop_first()[k - 1] == s[k] by {}
    }
}

/// The converse: a first occurrence at `i` pins `provider_index` to `i`,
/// and no occurrence pins it to `-1`.
pub proof fn lemma_provider_index_of(s: Seq<ProviderView>, name: Seq<char>, i: int)
    requires
        0 <= i <= s.len(),
        forall|k: int| 0 <= k < i ==> (#[trigger] s[k]).name != name,
    ensures
        0 <= i < s.len() && s[i].name == name ==> provider_index(s, name) == i,
        (forall|k: int| 0 <= k < s.len() ==> (#[trigger] s[k]).name != name) ==> provider_index(
            s,
            name,
        ) == -1,
    decreases s.len(),
{
    if s.len() > 0 && s[0].name != name {
        let j: int = if i == 0 {
            0
        } else {
            i - 1
        };
        assert forall|k: int| 0 <= k < j implies (#[trigger] s.drop_first()[k]).name != name by {
            assert(s.drop_first()[k] == s[k + 1]);
        }
        lemma_provider_index_of(s.drop_first(), name, j);
        if 0 <= i < s.len() && s[i].name == name {
            assert(s.drop_first()[i - 1] == s[i]);
        }
        if forall|k: int| 0 <= k < s.len() ==> (#[trigger] s[k]).name != name {
            assert forall|k: int|
                0 <= k < s.drop_first().len() implies (#[trigger] s.drop_first()[k]).name
                != name by {
                assert(s.drop_first()[k] == s[k + 1]);
            }
        }
    }
}

/// `s` without the providers carrying `name`.
pub open spec fn without_provider(s: Seq<ProviderView>, name: Seq<char>) -> Seq<ProviderView>
    decreases s.len(),
{
    if s.len() == 0 {
        Seq::empty()
    } else if s[0].name == name {
        without_provider(s.drop_first(), name)
    } else {
        seq![s[0]] + without_provider(s.drop_first(), name)
    }
}

/// Removal after appending a provider appends it unless it carries the
/// removed name.
proof fn lemma_without_provider_push(s: Seq<ProviderView>, name: Seq<char>, x: ProviderView)
    ensures
        without_provider(s.push(x), name) == if x.name == name {
            without_provider(s, name)
        } else {
            without_provider(s, name).push(x)
        },
    decreases s.len(),
{
    let p = s.push(x);
    if s.len() == 0 {
        assert(p.len() == 1 && p[0] == x);
        assert(p.drop_first() =~= Seq::<ProviderView>::empty());
        assert(without_provider(Seq::<ProviderView>::empty(), name) == Seq::<
            ProviderView,
        >::empty());
        assert(without_provider(p.drop_first(), name) == Seq::<ProviderView>::empty());
        if x.name != name {
            assert(without_provider(p, name) =~= without_provider(s, name).push(x));
        } else {
            assert(without_provider(p, name) =~= without_provider(s, name));
        }
    } else {
        assert(p[0] == s[0]);
        assert(p.drop_first() =~= s.drop_first().push(x));
        lemma_without_provider_push(s.drop_first(), name, x);
        if x.name != name && s[0].name != name {
            assert(without_provider(p, name) == seq![s[0]] + without_provider(
                s.drop_first(),
                name,
            ).push(x));
            assert(seq![s[0]] + without_provider(s.drop_first(), name).push(x) =~= (seq![s[0]]
                + without_provider(s.drop_first(), name)).push(x));
        }
    }
}

/// The manager of the provider configuration; reading and writing its
/// settings file stays with the caller.
pub struct ClaudeConfigManager;

impl ClaudeConfigManager {
    /// The settings file inside the given configuration directory.
    pub fn get_config_file(config_dir: &str) -> (r: String)
        ensures
            r@ == config_dir@ + "/settings.json"@,
    {
        let mut r = config_dir.to_owned();
        r.append("/settings.json");
        r
    }

    /// Checks the shape of an API key: at least ten characters and one of
    /// the known prefixes.
    pub fn validate_api_key(api_key: &str) -> (r: Result<bool, String>)
        ensures
            r matches Ok(v) && v == spec_valid_api_key(api_key@),
    {
        let n = api_key.unicode_len();
        if n < 10 {
            return Ok(false);
        }
        let chars = str_to_chars(api_key);
        let p1 = str_to_chars("sk-");
        let p2 = str_to_chars("sk_");
        let p3 = str_to_chars("pat-");
        let valid = starts_with_exact(&chars, &p1) || starts_with_exact(&chars, &p2)
            || starts_with_exact(&chars, &p3);
        Ok(valid)
    }

    /// Adds a provider to the configuration; fails when one of the same
    /// name is already registered.
    pub fn add_provider(config: &mut ClaudeConfig, provider: ClaudeProvider) -> (r: Result<
        (),
        String,
    >)
        ensures
            match r {
                Ok(()) => {
                    &&& provider_index(old(config).providers_view(), provider@.name) == -1
                    &&& final(config).providers_view() == old(config).providers_view().push(
                        provider@,
                    )
                    &&& final(config).current_view() == old(config).current_view()
                },
                Err(_) => {
                    &&& provider_index(old(config).providers_view(), provider@.name) >= 0
                    &&& final(config).providers_view() == old(config).providers_view()
                    &&& final(config).current_view() == old(config).current_view()
                },
            },
    {
        let ghost pre = config.providers_view();
        match Self::provider_pos(&config.providers, &provider.name) {
            Some(_) => {
                let mut msg = "provider already exists: ".to_owned();
                msg.append(provider.name.as_str());
                Err(msg)
            },
            None => {
                let ghost pv = provider@;
                config.providers.push(provider);
                proof {
                    assert(config.providers_view() =~= pre.push(pv));
                }
                Ok(())
            },
        }
    }

    /// Selects the provider registered under `name`; fails when none is.
    pub fn switch_provider(config: &mut ClaudeConfig, name: &String) -> (r: Result<(), String>)
        ensures
            match r {
                Ok(()) => {
                    &&& provider_index(old(config).providers_view(), name@) >= 0
                    &&& final(config).providers_view() == old(config).providers_view()
                    &&& final(config).current_view() == Some(name@)
                },
                Err(_) => {
                    &&& provider_index(old(config).providers_view(), name@) == -1
                    &&& final(config).providers_view() == old(config).providers_view()
                    &&& final(config).current_view() == old(config).current_view()
                },
            },
    {
        match Self::provider_pos(&config.providers, name) {
            Some(_) => {
                config.current_provider = Some(name.clone());
                Ok(())
            },
            None => {
                let mut msg = "provider not found: ".to_owned();
                msg.append(name.as_str());
                Err(msg)
            },
        }
    }

    /// Removes every provider registered under `name`, clearing the
    /// selection when it pointed at that name; removing an unknown name
    /// leaves the provider list as it was.
    pub fn remove_provider(config: &mut ClaudeConfig, name: &String)
        ensures
            final(config).providers_view() == without_provider(old(config).providers_view(), name@),
            final(config).current_view() == if old(config).current_view() == Some(name@) {
                None::<Seq<char>>
            } else {
                old(config).current_view()
            },
    {
        let ghost av = config.providers_view();
        let n = config.providers.len();
        let mut kept: Vec<ClaudeProvider> = Vec::new();
        let mut i: usize = 0;
        while i < n
            invariant
                i <= n,
                n == config.providers@.len(),
                av == config.providers_view(),
                kept@.map_values(|p: ClaudeProvider| p@) == without_provider(
                    av.take(i as int),
                    name@,
                ),
            decreases n - i,
        {
            let ghost pre = kept@.map_values(|p: ClaudeProvider| p@);
            if !(config.providers[i].name == *name) {
                kept.push(config.providers[i].snapshot());
                proof {
                    assert(kept@.map_values(|p: ClaudeProvider| p@) =~= pre.push(av[i as int]));
                }
            }
            proof {
                assert(av.take(i + 1 as int) =~= av.take(i as int).push(av[i as int]));
                lemma_without_provider_push(av.take(i as int), name@, av[i as int]);
            }
            i = i + 1;
        }
        proof {
            assert(av.take(n as int) =~= av);
        }
        config.providers = kept;
        let clear = match &config.current_provider {
            Some(cur) => *cur == *name,
            None => false,
        };
        if clear {
            config.current_provider = None;
        }
    }

    /// Copies of every configured provider, in registry order.
    pub fn load_providers(config: &ClaudeConfig) -> (r: Vec<ClaudeProvider>)
        ensures
            r@.map_values(|p: ClaudeProvider| p@) == config.providers_view(),
    {
        let n = config.providers.len();
        let mut r: Vec<ClaudeProvider> = Vec::new();
        let mut i: usize = 0;
        while i < n
            invariant
                i <= n,
                n == config.providers@.len(),
                r@.len() == i,
                forall|k: int| 0 <= k < i ==> (#[trigger] r@[k])@ == config.providers@[k]@,
            decreases n - i,
        {
            r.push(config.providers[i].snapshot());
            i = i + 1;
        }
        proof {
            assert(r@.map_values(|p: ClaudeProvider| p@) =~= config.providers_view());
        }
        r
    }

    /// The provider the configuration currently selects, if its name is
    /// still registered.
    pub fn get_current_provider(config: &ClaudeConfig) -> (r: Option<ClaudeProvider>)
        ensures
            match r {
                Some(p) => {
                    &&& config.current_view() matches Some(n)
                    &&& provider_index(config.providers_view(), p@.name) >= 0
                    &&& p@.name == config.current_view().unwrap()
                    &&& p@ == config.providers_view()[provider_index(
                        config.providers_view(),
                        p@.name,
                    )]
                },
                None => match config.current_view() {
                    None => true,
                    Some(n) => provider_index(config.providers_view(), n) == -1,
                },
            },
    {
        let name = match &config.current_provider {
            Some(n) => n,
            None => {
                return None;
            },
        };
        match Self::provider_pos(&config.providers, name) {
            Some(i) => {
                proof {
                    lemma_provider_index(config.providers_view(), name@);
                }
                Some(config.providers[i].snapshot())
            },
            None => None,
        }
    }

    /// The content of the generated environment file for the selected
    /// provider.
    pub fn env_file_content(api_key: &str, base_url: &str) -> (r: String)
        ensures
            r@ == "ANTHROPIC_API_KEY="@ + api_key@ + "\nANTHROPIC_BASE_URL="@ + base_url@ + "\n"@,
    {
        let mut r = "ANTHROPIC_API_KEY=".to_owned();
        r.append(api_key);
        r.append("\nANTHROPIC_BASE_URL=");
        r.append(base_url);
        r.append("\n");
        r
    }

    /// The position of `name` in the provider list.
    fn provider_pos(providers: &Vec<ClaudeProvider>, name: &String) -> (r: Option<usize>)
        ensures
            match r {
                Some(i) => i < providers@.len() && provider_index(
                    providers@.map_values(|p: ClaudeProvider| p@),
                    name@,
                ) == i,
                None => provider_index(providers@.map_values(|p: ClaudeProvider| p@), name@) == -1,
            },
    {
        let ghost views = providers@.map_values(|p: ClaudeProvider| p@);
        let n = providers.len();
        let mut i: usize = 0;
        while i < n
            invariant
                i <= n,
                n == providers@.len(),
                views == providers@.map_values(|p: ClaudeProvider| p@),
                forall|k: int| 0 <= k < i ==> (#[trigger] views[k]).name != name@,
            decreases n - i,
        {
            if providers[i].name == *name {
                proof {
                    lemma_provider_index_of(views, name@, i as int);
                }
                return Some(i);
            }
            i = i + 1;
        }
        proof {
            lemma_provider_index_of(views, name@, n as int);
        }
        None
    }
}

/// The shape a valid API key has: at least ten characters and a known
/// prefix.
pub open spec fn spec_valid_api_key(key: Seq<char>) -> bool {
    key.len() >= 10 && (matches_at(key, "sk-"@, 0) || matches_at(key, "sk_"@, 0) || matches_at(
        key,
        "pat-"@,
        0,
    ))
}

} // verus!
