//! The tag policy of a database: which tags may be written, and which names
//! stand for lists of tags.

use crate::text::{find_string, lemma_first_index, lemma_no_index, str_eq};
use vstd::prelude::*;

verus! {

/// Configuration for a database.
#[derive(Debug)]
pub struct DatabaseConfig {
    /// If present, only these tags may be written.
    pub whitelist: Option<Vec<String>>,
    /// If present, these tags may not be written.
    pub blacklist: Option<Vec<String>>,
    /// Each alias with the tags it stands for. Where a name occurs twice the
    /// first entry counts.
    pub aliases: Vec<(String, Vec<String>)>,
}

/// What a `DatabaseConfig` stands for.
pub struct DatabaseConfigView {
    pub whitelist: Option<Seq<Seq<char>>>,
    pub blacklist: Option<Seq<Seq<char>>>,
    pub aliases: Seq<(Seq<char>, Seq<Seq<char>>)>,
}

impl View for DatabaseConfig {
    type V = DatabaseConfigView;

    open spec fn view(&self) -> DatabaseConfigView {
        DatabaseConfigView {
            whitelist: self.whitelist.deep_view(),
            blacklist: self.blacklist.deep_view(),
            aliases: self.aliases.deep_view(),
        }
    }
}

/// Whether `tag` is in `list`; `default` where there is no list.
pub open spec fn matches_list(tag: Seq<char>, list: Option<Seq<Seq<char>>>, default: bool) -> bool {
    match list {
        Some(tags) => tags.contains(tag),
        None => default,
    }
}

impl DatabaseConfigView {
    /// The names of the aliases, in the order of their entries.
    pub open spec fn alias_names(self) -> Seq<Seq<char>> {
        self.aliases.map_values(|entry: (Seq<char>, Seq<Seq<char>>)| entry.0)
    }

    /// The tags that the alias `name` stands for, if `name` is an alias.
    pub open spec fn alias(self, name: Seq<char>) -> Option<Seq<Seq<char>>> {
        match self.alias_names().index_of_first(name) {
            Some(i) => Some(self.aliases[i].1),
            None => None,
        }
    }

    /// The tags that are written for `raw`: those of the alias if `raw` names
    /// one, else `raw` itself.
    pub open spec fn expand(self, raw: Seq<char>) -> Seq<Seq<char>> {
        match self.alias(raw) {
            Some(tags) => tags,
            None => seq![raw],
        }
    }

    /// Whether `tag` may be written: it is on the whitelist, if there is one,
    /// and not on the blacklist, if there is one.
    pub open spec fn allows(self, tag: Seq<char>) -> bool {
        matches_list(tag, self.whitelist, true) && !matches_list(tag, self.blacklist, false)
    }
}

impl Default for DatabaseConfig {
    /// The configuration that allows every tag and knows no alias.
    fn default() -> (config: DatabaseConfig)
        ensures
            config@ == (DatabaseConfigView {
                whitelist: None,
                blacklist: None,
                aliases: Seq::empty(),
            }),
    {
        let config = DatabaseConfig { whitelist: None, blacklist: None, aliases: Vec::new() };
        assert(config.aliases.deep_view() =~= Seq::empty());
        config
    }
}

impl DatabaseConfig {
    /// The tags that `alias` stands for, if it is the name of an alias.
    pub fn get_alias(&self, alias: &String) -> (r: Option<Vec<&String>>)
        ensures
            r.deep_view() == self@.alias(alias@),
    {
        let n: usize = self.aliases.len();
        let mut i: usize = 0;
        while i < n
            invariant
                i <= n,
                n == self.aliases.len(),
                forall|j: int| 0 <= j < i ==> self@.alias_names()[j] != alias@,
            decreases n - i,
        {
            if str_eq(self.aliases[i].0.as_str(), alias.as_str()) {
                proof {
                    lemma_first_index(self@.alias_names(), alias@, i as int);
                }
                let tags = &self.aliases[i].1;
                let mut list: Vec<&String> = Vec::new();
                let mut k: usize = 0;
                while k < tags.len()
                    invariant
                        k <= tags.len(),
                        list.deep_view() == tags.deep_view().take(k as int),
                    decreases tags.len() - k,
                {
                    let ghost before = list.deep_view();
                    list.push(&tags[k]);
                    assert(list.deep_view() =~= before.push(tags.deep_view()[k as int]));
                    assert(tags.deep_view().take(k + 1) =~= before.push(
                        tags.deep_view()[k as int],
                    ));
                    k = k + 1;
                }
                assert(list.deep_view() == tags.deep_view());
                return Some(list);
            }
            i = i + 1;
        }
        proof {
            lemma_no_index(self@.alias_names(), alias@);
        }
        None
    }

    /// The tags that are written for `tag`: those of the alias if `tag` names
    /// one, else `tag` itself.
    pub fn expand<'a>(&'a self, tag: &'a String) -> (tags: Vec<&'a String>)
        ensures
            tags.deep_view() == self@.expand(tag@),
    {
        match self.get_alias(tag) {
            Some(tags) => tags,
            None => {
                let mut tags: Vec<&String> = Vec::new();
                tags.push(tag);
                assert(tags.deep_view() == seq![tag@]);
                tags
            },
        }
    }

    /// Whether the policy lets `tag` be written: the whitelist, if there is
    /// one, must hold it, and the blacklist, if there is one, must not.
    pub fn tag_allowed(&self, tag: &String) -> (allowed: bool)
        ensures
            allowed == self@.allows(tag@),
    {
        let matches_whitelist = tag_matches_list(tag, &self.whitelist, true);
        let matches_blacklist = !tag_matches_list(tag, &self.blacklist, false);
        matches_whitelist && matches_blacklist
    }
}

/// Whether `tag` is in `list`. If there is no list, returns `default`.
pub fn tag_matches_list(tag: &String, list: &Option<Vec<String>>, default: bool) -> (r: bool)
    ensures
        r == matches_list(tag@, list.deep_view(), default),
{
    match list {
        Some(inner_list) => find_string(inner_list, tag.as_str()).is_some(),
        None => default,
    }
}

/// The configuration of a database: the one that was found with it, or the
/// default where none could be loaded.
pub fn get_database_config(loaded: Option<DatabaseConfig>) -> (config: DatabaseConfig)
    ensures
        match loaded {
            Some(found) => config == found,
            None => config@ == (DatabaseConfigView {
                whitelist: None,
                blacklist: None,
                aliases: Seq::empty(),
            }),
        },
{
    match loaded {
        Some(found) => found,
        None => DatabaseConfig::default(),
    }
}

} // verus!
