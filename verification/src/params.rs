//! The parameters of a run: what the command line asks for and what the
//! configuration file holds.

use vstd::prelude::*;
use vstd::string::StringExecFns;
use indexmap::IndexMap;
use crate::auth::{Auth, AuthView};
use ureq::Proxy;
use crate::client::{
    Client, ClientBuilderError, ClientView, DEFAULT_BASE_URL, DEFAULT_USER_AGENT, TOO_LONG,
};

verus! {

/// How much a run reports.
#[derive(Clone, Copy, Debug, PartialEq, Eq)]
pub enum LevelFilter {
    Off,
    Error,
    Warn,
    Info,
    Debug,
    Trace,
}

/// What a run is to do.
#[derive(Clone, Copy, Debug, PartialEq, Eq)]
pub enum Command {
    /// Configure a site interactively.
    Config,
    /// Replace credentials with API keys in the config file.
    Key,
    /// List files on the site(s).
    List,
    /// Deploy local files to the site(s).
    Deploy,
}

/// The parameters of the command line.
#[derive(Debug, PartialEq)]
pub struct Params {
    /// Config file
    pub config: Option<String>,
    /// Select a site. (If not given, all sites are selected.)
    pub sites: Vec<String>,
    /// Ignore errors and continue.
    pub ignore_errors: bool,
    /// More verbosity.
    pub verbose: Option<u8>,
    /// Less verbosity.
    pub quiet: Option<u8>,
    /// Subcommand
    pub command: Command,
}

/// Configuration for a site.
#[derive(PartialEq)]
pub struct Site {
    /// Authentication method to use.
    pub auth: Auth,
    /// Whether the account is free or paid.
    pub free_account: Option<bool>,
    /// Path to the local directory.
    pub path: String,
    /// Proxy to use for HTTP requests.
    pub proxy: Option<String>,
}

/// What a `Site` stands for.
pub struct SiteView {
    pub auth: AuthView,
    pub free_account: Option<bool>,
    pub path: Seq<char>,
    pub proxy: Option<Seq<char>>,
}

impl View for Site {
    type V = SiteView;

    open spec fn view(&self) -> SiteView {
        SiteView {
            auth: self.auth@,
            free_account: self.free_account,
            path: self.path@,
            proxy: match self.proxy {
                Some(p) => Some(p@),
                None => None,
            },
        }
    }
}

impl DeepView for Site {
    type V = SiteView;

    open spec fn deep_view(&self) -> SiteView {
        self@
    }
}

impl Clone for Site {
    fn clone(&self) -> (r: Self)
        ensures
            r == *self,
    {
        Site {
            auth: self.auth.clone(),
            free_account: self.free_account,
            path: self.path.clone(),
            proxy: match &self.proxy {
                Some(p) => Some(p.clone()),
                None => None,
            },
        }
    }
}

#[verifier::external_type_specification]
#[verifier::external_body]
#[verifier::reject_recursive_types(K)]
#[verifier::reject_recursive_types(V)]
#[verifier::reject_recursive_types(S)]
pub struct ExIndexMap<K, V, S>(IndexMap<K, V, S>);

/// The sites that a map holds, each with its name, in the order of the map.
/// No name occurs twice.
pub uninterp spec fn site_entries(map: IndexMap<String, Site>) -> Seq<(Seq<char>, SiteView)>;

/// The index of the first site with the given name; the number of sites if
/// there is none.
pub open spec fn site_index(entries: Seq<(Seq<char>, SiteView)>, name: Seq<char>) -> int
    decreases entries.len(),
{
    if entries.len() == 0 {
        0
    } else if entries[0].0 == name {
        0
    } else {
        1 + site_index(entries.drop_first(), name)
    }
}

/// Some site has the given name.
pub open spec fn has_site_named(entries: Seq<(Seq<char>, SiteView)>, name: Seq<char>) -> bool {
    site_index(entries, name) < entries.len()
}

/// The names of the sites, in their order.
pub open spec fn site_names(entries: Seq<(Seq<char>, SiteView)>) -> Seq<Seq<char>> {
    Seq::new(entries.len(), |i: int| entries[i].0)
}

/// The sites with one put in: in the place of the site of that name if there
/// is one, else behind the last.
pub open spec fn with_site(entries: Seq<(Seq<char>, SiteView)>, name: Seq<char>, site: SiteView) -> Seq<
    (Seq<char>, SiteView),
> {
    if has_site_named(entries, name) {
        entries.update(site_index(entries, name), (name, site))
    } else {
        entries.push((name, site))
    }
}

/// A map without sites.
///
/// Trusted: `IndexMap::new` of the `indexmap` crate, which creates an empty map.
#[verifier::external_body]
fn sites_new() -> (map: IndexMap<String, Site>)
    ensures
        site_entries(map) == Seq::<(Seq<char>, SiteView)>::empty(),
{
    IndexMap::new()
}

/// Tells whether the map holds a site of the given name.
///
/// Trusted: `IndexMap::contains_key` of the `indexmap` crate, which returns
/// `true` if a key equal to the given one exists in the map.
#[verifier::external_body]
fn sites_contains(map: &IndexMap<String, Site>, name: &str) -> (r: bool)
    ensures
        r == has_site_named(site_entries(*map), name@),
{
    map.contains_key(name)
}

/// The site of the given name, if the map holds one.
///
/// Trusted: `IndexMap::get` of the `indexmap` crate, which returns a
/// reference to the value stored for the key, if it is present, else `None`.
#[verifier::external_body]
fn sites_get<'a>(map: &'a IndexMap<String, Site>, name: &str) -> (r: Option<&'a Site>)
    ensures
        has_site_named(site_entries(*map), name@) ==> r is Some && r->0@ == site_entries(
            *map,
        )[site_index(site_entries(*map), name@)].1,
        !has_site_named(site_entries(*map), name@) ==> r is None,
{
    map.get(name)
}

/// Puts a site into the map under the given name.
///
/// Trusted: `IndexMap::insert` of the `indexmap` crate. If the key exists,
/// it keeps its place in the order, its value is replaced, and the old
/// value is returned. If not, the pair goes in last, and `None` is returned.
#[verifier::external_body]
fn sites_insert(map: &mut IndexMap<String, Site>, name: String, site: Site) -> (r: Option<Site>)
    ensures
        site_entries(*final(map)) == with_site(site_entries(*old(map)), name@, site@),
        (r is Some) == has_site_named(site_entries(*old(map)), name@),
        r is Some ==> r->0@ == site_entries(*old(map))[site_index(
            site_entries(*old(map)),
            name@,
        )].1,
{
    map.insert(name, site)
}

/// The names of the sites in the map, in their order.
///
/// Trusted: `IndexMap::keys` of the `indexmap` crate, which goes over the
/// keys of the map in their order; each key is copied out.
#[verifier::external_body]
fn sites_keys(map: &IndexMap<String, Site>) -> (names: Vec<String>)
    ensures
        names.deep_view() == site_names(site_entries(*map)),
{
    map.keys().cloned().collect()
}

/// Main struct for the configuration file.
pub struct Config {
    /// The configured sites.
    pub sites: IndexMap<String, Site>,
}

impl View for Config {
    type V = Seq<(Seq<char>, SiteView)>;

    open spec fn view(&self) -> Seq<(Seq<char>, SiteView)> {
        site_entries(self.sites)
    }
}

impl Default for Config {
    fn default() -> (r: Self)
        ensures
            r@ == Seq::<(Seq<char>, SiteView)>::empty(),
    {
        Config { sites: sites_new() }
    }
}

impl Config {
    /// Whether a site is present in the configuration.
    pub fn has_site(&self, name: &str) -> (r: bool)
        ensures
            r == has_site_named(self@, name@),
    {
        sites_contains(&self.sites, name)
    }

    /// Insert a site into the configuration.
    pub fn insert_site(&mut self, name: String, site: Site)
        ensures
            final(self)@ == with_site(old(self)@, name@, site@),
    {
        let _ = sites_insert(&mut self.sites, name, site);
    }

    /// The site of the given name, if the configuration holds one.
    pub fn site(&self, name: &str) -> (r: Option<&Site>)
        ensures
            has_site_named(self@, name@) ==> r is Some && r->0@ == self@[site_index(
                self@,
                name@,
            )].1,
            !has_site_named(self@, name@) ==> r is None,
    {
        sites_get(&self.sites, name)
    }

    /// The names of the configured sites, in their order.
    pub fn names(&self) -> (r: Vec<String>)
        ensures
            r.deep_view() == site_names(self@),
    {
        sites_keys(&self.sites)
    }

    /// Replaces the authentication of a configured site by an API key. The
    /// site keeps its place and its other settings.
    pub fn set_api_key(&mut self, name: &str, key: String)
        requires
            has_site_named(old(self)@, name@),
        ensures
            final(self)@ == old(self)@.update(
                site_index(old(self)@, name@),
                (
                    name@,
                    SiteView {
                        auth: AuthView::ApiKey(key@),
                        ..old(self)@[site_index(old(self)@, name@)].1
                    },
                ),
            ),
    {
        let site = match sites_get(&self.sites, name) {
            Some(site) => site.clone(),
            None => unreached(),
        };
        let site = Site {
            auth: Auth::ApiKey(key),
            free_account: site.free_account,
            path: site.path,
            proxy: site.proxy,
        };
        let _ = sites_insert(&mut self.sites, String::from_str(name), site);
    }
}

/// Why the sites of a run could not be determined.
#[derive(Debug, PartialEq)]
pub enum ParamsError {
    /// A site that the command line names is not configured. Holds the name.
    SiteNotFound(String),
}

impl ParamsError {
    /// The error in words.
    pub fn to_text(&self) -> (r: String)
        ensures
            r@ == "Site not found: "@ + self->SiteNotFound_0@,
    {
        match self {
            ParamsError::SiteNotFound(name) => {
                let mut text = String::from_str("Site not found: ");
                text.append(name.as_str());
                text
            },
        }
    }
}

/// The level that so much more and so much less verbosity give: three steps
/// up from silence, one more for each `verbose`, one less for each `quiet`,
/// never above 255 on the way up nor below zero on the way down.
pub open spec fn verbosity_level(verbose: Option<u8>, quiet: Option<u8>) -> int {
    let more = match verbose {
        Some(n) => n as int,
        None => 0,
    };
    let less = match quiet {
        Some(n) => n as int,
        None => 0,
    };
    let up = if 3 + more > 255 {
        255
    } else {
        3 + more
    };
    if up - less < 0 {
        0
    } else {
        up - less
    }
}

/// The filter that stands for a level: from 5 on everything is reported.
pub open spec fn level_filter(level: int) -> LevelFilter {
    if level <= 0 {
        LevelFilter::Off
    } else if level == 1 {
        LevelFilter::Error
    } else if level == 2 {
        LevelFilter::Warn
    } else if level == 3 {
        LevelFilter::Info
    } else if level == 4 {
        LevelFilter::Debug
    } else {
        LevelFilter::Trace
    }
}

/// The names of the sites to work with: those that the command line names,
/// or all configured ones if it names none.
pub open spec fn selected_names(asked: Seq<Seq<char>>, entries: Seq<(Seq<char>, SiteView)>) -> Seq<
    Seq<char>,
> {
    if asked.len() == 0 {
        site_names(entries)
    } else {
        asked
    }
}

/// The first of the names that no configured site has, if any.
pub open spec fn first_missing(names: Seq<Seq<char>>, entries: Seq<(Seq<char>, SiteView)>) -> Option<
    Seq<char>,
>
    decreases names.len(),
{
    if names.len() == 0 {
        None
    } else {
        match first_missing(names.drop_last(), entries) {
            Some(name) => Some(name),
            None => if has_site_named(entries, names.last()) {
                None
            } else {
                Some(names.last())
            },
        }
    }
}

/// The sites of the given names, each with its name.
pub open spec fn sites_named(names: Seq<Seq<char>>, entries: Seq<(Seq<char>, SiteView)>) -> Seq<
    (Seq<char>, SiteView),
> {
    Seq::new(names.len(), |i: int| (names[i], entries[site_index(entries, names[i])].1))
}

impl Params {
    /// Get the configuration file path: the one that the command line gives,
    /// or else the default one, which is only then asked for.
    pub fn config_file<F: FnOnce() -> String>(&self, default: F) -> (r: String)
        requires
            self.config is None ==> call_requires(default, ()),
        ensures
            match self.config {
                Some(path) => r == path,
                None => call_ensures(default, (), r),
            },
    {
        match &self.config {
            Some(path) => path.clone(),
            None => default(),
        }
    }

    /// Get the verbosity level for this program.
    pub fn verbosity(&self) -> (r: LevelFilter)
        ensures
            r == level_filter(verbosity_level(self.verbose, self.quiet)),
    {
        let more = match self.verbose {
            Some(n) => n,
            None => 0,
        };
        let less = match self.quiet {
            Some(n) => n,
            None => 0,
        };
        let numeric_level = 3u8.saturating_add(more).saturating_sub(less);
        match numeric_level {
            0 => LevelFilter::Off,
            1 => LevelFilter::Error,
            2 => LevelFilter::Warn,
            3 => LevelFilter::Info,
            4 => LevelFilter::Debug,
            _ => LevelFilter::Trace,
        }
    }

    /// Get the sites to work with, as specified in the command line or all the available sites
    /// if none is specified. A name that is not configured is an error.
    pub fn sites(&self, config: &Config) -> (r: Result<Vec<(String, Site)>, ParamsError>)
        ensures
            match first_missing(selected_names(self.sites.deep_view(), config@), config@) {
                Some(name) => r is Err && r->Err_0->SiteNotFound_0@ == name,
                None => r is Ok && r->Ok_0.deep_view() == sites_named(
                    selected_names(self.sites.deep_view(), config@),
                    config@,
                ),
            },
    {
        let all = config.names();
        let names: &Vec<String> = if self.sites.is_empty() {
            &all
        } else {
            &self.sites
        };
        let ghost wanted = selected_names(self.sites.deep_view(), config@);
        assert(names.deep_view() == wanted);
        let mut found: Vec<(String, Site)> = Vec::new();
        let mut i: usize = 0;
        assert(wanted.take(0) =~= Seq::empty());
        assert(found.deep_view() =~= sites_named(wanted.take(0), config@));
        while i < names.len()
            invariant
                i <= names.len(),
                names.deep_view() == wanted,
                wanted == selected_names(self.sites.deep_view(), config@),
                first_missing(wanted.take(i as int), config@) is None,
                found.deep_view() == sites_named(wanted.take(i as int), config@),
            decreases names.len() - i,
        {
            let name = &names[i];
            proof {
                let next = wanted.take(i + 1);
                assert(names.deep_view()[i as int] == name@);
                assert(next.drop_last() =~= wanted.take(i as int));
                assert(next.last() == name@);
            }
            match config.site(name.as_str()) {
                Some(site) => {
                    let ghost before = found.deep_view();
                    let pair = (name.clone(), site.clone());
                    assert(pair.deep_view() == (name@, site@));
                    found.push(pair);
                    assert(found.deep_view() =~= before.push((name@, site@)));
                    assert(found.deep_view() =~= sites_named(wanted.take(i + 1), config@));
                },
                None => {
                    proof {
                        lemma_first_missing_found(wanted, config@, i as int);
                    }
                    return Err(ParamsError::SiteNotFound(name.clone()));
                },
            }
            i += 1;
        }
        assert(wanted.take(i as int) =~= wanted);
        Ok(found)
    }
}

/// The first name without a site among the names is the first missing one.
pub proof fn lemma_first_missing_found(
    names: Seq<Seq<char>>,
    entries: Seq<(Seq<char>, SiteView)>,
    k: int,
)
    requires
        0 <= k < names.len(),
        first_missing(names.take(k), entries) is None,
        !has_site_named(entries, names[k]),
    ensures
        first_missing(names, entries) == Some(names[k]),
    decreases names.len(),
{
    if names.len() == k + 1 {
        assert(names.drop_last() =~= names.take(k));
    } else {
        let init = names.drop_last();
        assert(init.take(k) =~= names.take(k));
        lemma_first_missing_found(init, entries, k);
    }
}

/// Whether `ureq` takes a text as the address of a proxy.
pub uninterp spec fn proxy_accepted(proxy: Seq<char>) -> bool;

/// Tells whether a text is the address of a proxy.
///
/// Trusted: `Proxy::new` of the `ureq` crate, which reads a proxy from a
/// text of the form `<protocol>://<user>:<password>@<host>:port` and fails
/// on any other. Whether it succeeds depends on the text alone.
#[verifier::external_body]
pub(crate) fn proxy_parses(proxy: &str) -> (r: bool)
    ensures
        r == proxy_accepted(proxy@),
{
    Proxy::new(proxy).is_ok()
}

/// Why a client could not be built for a site.
#[derive(Debug, PartialEq)]
pub enum SiteError {
    /// The proxy of the site is no address of a proxy. Holds the proxy.
    InvalidProxy(String),
    /// The client's builder refused.
    Client(ClientBuilderError),
}

impl Site {
    /// Build a [`Client`] from the site configuration.
    ///
    /// `api_url` takes the place of the default base URL where it is given.
    /// The proxy is not part of the client; it is checked here, so that a
    /// site with a proxy that cannot be used gives no client.
    pub fn build_client(&self, api_url: Option<String>) -> (r: Result<Client, SiteError>)
        ensures
            match self@.proxy {
                Some(proxy) if !proxy_accepted(proxy) => r is Err && r->Err_0 is InvalidProxy
                    && r->Err_0->InvalidProxy_0@ == proxy,
                _ => if self@.auth.encodable() {
                    r is Ok && r->Ok_0@ == (ClientView {
                        base_url: match api_url {
                            Some(url) => url@,
                            None => DEFAULT_BASE_URL@,
                        },
                        user_agent: DEFAULT_USER_AGENT@,
                        auth: self@.auth,
                    })
                } else {
                    r is Err && r->Err_0 is Client && r->Err_0->Client_0 is ValidationError
                        && r->Err_0->Client_0->ValidationError_0@ == TOO_LONG@
                },
            },
    {
        match &self.proxy {
            Some(proxy) => {
                if !proxy_parses(proxy.as_str()) {
                    return Err(SiteError::InvalidProxy(proxy.clone()));
                }
            },
            None => {},
        }
        let builder = Client::builder();
        let builder = match api_url {
            Some(url) => builder.base_url(url),
            None => builder,
        };
        match builder.auth(self.auth.clone()).build() {
            Ok(client) => Ok(client),
            Err(e) => Err(SiteError::Client(e)),
        }
    }
}

} // verus!
