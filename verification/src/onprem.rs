use vstd::prelude::*;
use vstd::string::StringExecFns;
use crate::assoc::{assoc_map, keys_unique, lemma_assoc_absent, lemma_assoc_last, lemma_assoc_len};
use crate::errors::AnalyzerError;
use crate::text::{
    all_ascii, append_str, ascii_lowercase, chars_of, copy_strings, is_cc, is_control, lowercase_of, same_text,
    string_from_chars, string_views, to_lowercase, trim, trim_chars,
};

verus! {

/// Where the organisation's repositories are cloned from.
pub trait InternalGitProvider {
    fn repo_url(&self, repo_name: &str) -> Result<String, AnalyzerError>;
}

/// Answers whether a user belongs to a group.
pub trait DirectoryProvider {
    fn is_in_group(&mut self, user: &str, group: &str) -> Result<bool, AnalyzerError>;
}

/// Lists the groups of a user.
pub trait DirectoryLookup {
    /// The groups the directory lists for `user`.
    spec fn listed_groups(&self, user: Seq<char>) -> Seq<Seq<char>>;

    /// The groups of `user`: where the lookup succeeds, those the directory lists.
    fn groups_for_user(&mut self, user: &str) -> (r: Result<Vec<String>, AnalyzerError>)
        ensures
            r matches Ok(gs) ==> string_views(gs@) == old(self).listed_groups(user@),
    ;
}

/// The git server on the internal network.
pub struct LocalGitProvider;

impl InternalGitProvider for LocalGitProvider {
    fn repo_url(&self, repo_name: &str) -> (r: Result<String, AnalyzerError>)
        ensures
            r matches Ok(u) && u@ == "ssh://git.internal/"@ + repo_name@ + ".git"@,
    {
        let mut out = chars_of("ssh://git.internal/");
        append_str(&mut out, repo_name);
        append_str(&mut out, ".git");
        Ok(string_from_chars(&out))
    }
}

/// Some character of `s` is a control character.
pub open spec fn has_control(s: Seq<char>) -> bool {
    exists|i: int| 0 <= i < s.len() && is_cc(s[i])
}

/// A user or group name is usable once trimmed: not blank and free of control characters.
pub open spec fn principal_valid(value: Seq<char>) -> bool {
    trim(value).len() > 0 && !has_control(trim(value))
}

/// Why a name cannot be used, for the kind of name `field`.
pub open spec fn principal_error(value: Seq<char>, field: Seq<char>) -> Option<Seq<char>> {
    if trim(value).len() == 0 {
        Some("blank "@ + field)
    } else if has_control(trim(value)) {
        Some("invalid "@ + field + " contains control characters"@)
    } else {
        None
    }
}

/// The canonical form of a usable name: trimmed and lowercased.
pub open spec fn normalized_principal(value: Seq<char>) -> Seq<char> {
    lowercase_of(trim(value))
}

/// The name in canonical form where it is usable, else the name as given.
pub open spec fn principal_key(value: Seq<char>) -> Seq<char> {
    if principal_valid(value) {
        normalized_principal(value)
    } else {
        value
    }
}

/// `err` is a permission error that carries the message `msg`.
pub open spec fn denied_with<T>(r: Result<T, AnalyzerError>, msg: Seq<char>) -> bool {
    r matches Err(AnalyzerError::PermissionDenied(m)) && m@ == msg
}

fn has_control_chars(s: &Vec<char>) -> (r: bool)
    ensures
        r == has_control(s@),
{
    let mut i: usize = 0;
    while i < s.len()
        invariant
            i <= s@.len(),
            forall|k: int| 0 <= k < i ==> !is_cc(s@[k]),
        decreases s.len() - i,
    {
        if is_control(s[i]) {
            return true;
        }
        i = i + 1;
    }
    false
}

fn denied_for(prefix: &str, subject: &str) -> (r: AnalyzerError)
    ensures
        r matches AnalyzerError::PermissionDenied(m) && m@ == prefix@ + subject@,
{
    let mut out = chars_of(prefix);
    append_str(&mut out, subject);
    AnalyzerError::PermissionDenied(string_from_chars(&out))
}

fn denied(prefix: &str, field: &str, suffix: &str) -> (r: AnalyzerError)
    ensures
        r matches AnalyzerError::PermissionDenied(m) && m@ == prefix@ + field@ + suffix@,
{
    let mut out = chars_of(prefix);
    append_str(&mut out, field);
    append_str(&mut out, suffix);
    AnalyzerError::PermissionDenied(string_from_chars(&out))
}

/// Trims a user or group name and lowercases it; a blank name or one with control characters
/// is refused.
pub fn normalize_principal(value: &str, field: &str) -> (r: Result<String, AnalyzerError>)
    ensures
        match principal_error(value@, field@) {
            Some(msg) => denied_with(r, msg),
            None => r matches Ok(n) && n@ == normalized_principal(value@),
        },
        r is Ok <==> principal_valid(value@),
        principal_valid(value@) && all_ascii(trim(value@)) ==> normalized_principal(value@)
            == ascii_lowercase(trim(value@)),
{
    let v = chars_of(value);
    let t = trim_chars(&v);
    if t.len() == 0 {
        return Err(denied_for("blank ", field));
    }
    if has_control_chars(&t) {
        return Err(denied("invalid ", field, " contains control characters"));
    }
    let ts = string_from_chars(&t);
    Ok(to_lowercase(ts.as_str()))
}

fn principal_key_of(value: &str, field: &str) -> (r: String)
    ensures
        r@ == principal_key(value@),
{
    match normalize_principal(value, field) {
        Ok(n) => n,
        Err(_) => String::from_str(value),
    }
}

/// Each group name in canonical form where it is usable.
pub open spec fn group_keys(groups: Seq<Seq<char>>) -> Seq<Seq<char>> {
    groups.map_values(|g: Seq<char>| principal_key(g))
}

/// The entries of a membership table, read as plain values.
pub open spec fn membership_views(v: Seq<(String, Vec<String>)>) -> Seq<(Seq<char>, Seq<Seq<char>>)> {
    v.map_values(|e: (String, Vec<String>)| (e.0@, string_views(e.1@)))
}

/// A membership table with every user and group name in canonical form where it is usable.
pub open spec fn normalized_memberships(s: Seq<(Seq<char>, Seq<Seq<char>>)>) -> Seq<(Seq<char>, Seq<Seq<char>>)> {
    s.map_values(|e: (Seq<char>, Seq<Seq<char>>)| (principal_key(e.0), group_keys(e.1)))
}

fn group_keys_of(groups: &Vec<String>) -> (r: Vec<String>)
    ensures
        string_views(r@) == group_keys(string_views(groups@)),
{
    let mut out: Vec<String> = Vec::new();
    let mut i: usize = 0;
    while i < groups.len()
        invariant
            i <= groups@.len(),
            out@.len() == i,
            forall|k: int| 0 <= k < i ==> #[trigger] out@[k]@ == principal_key(groups@[k]@),
        decreases groups.len() - i,
    {
        out.push(principal_key_of(groups[i].as_str(), "group"));
        i = i + 1;
    }
    assert(string_views(out@) =~= group_keys(string_views(groups@)));
    out
}

/// A fixed membership table that counts how often it is asked.
pub struct StaticDirectoryLookup {
    memberships: Vec<(String, Vec<String>)>,
    lookups: usize,
}

impl StaticDirectoryLookup {
    /// The groups of each user.
    pub closed spec fn memberships(&self) -> Map<Seq<char>, Seq<Seq<char>>> {
        assoc_map(membership_views(self.memberships@))
    }

    /// How many lookups were made.
    pub closed spec fn lookups_made(&self) -> nat {
        self.lookups as nat
    }

    /// A table from users to their groups; names are put in canonical form where they are
    /// usable, and a later entry for a user replaces an earlier one.
    pub fn new(memberships: Vec<(String, Vec<String>)>) -> (r: Self)
        ensures
            r.memberships() == assoc_map(normalized_memberships(membership_views(memberships@))),
            r.lookups_made() == 0,
    {
        let ghost want = normalized_memberships(membership_views(memberships@));
        let mut out: Vec<(String, Vec<String>)> = Vec::new();
        let mut i: usize = 0;
        while i < memberships.len()
            invariant
                i <= memberships@.len(),
                want == normalized_memberships(membership_views(memberships@)),
                out@.len() == i,
                forall|k: int| 0 <= k < i ==> (#[trigger] out@[k]).0@ == want[k].0 && string_views(
                    out@[k].1@,
                ) == want[k].1,
            decreases memberships.len() - i,
        {
            let user = principal_key_of(memberships[i].0.as_str(), "user");
            let groups = group_keys_of(&memberships[i].1);
            proof {
                assert(membership_views(memberships@)[i as int] == (memberships@[i as int].0@, string_views(
                    memberships@[i as int].1@,
                )));
            }
            out.push((user, groups));
            i = i + 1;
        }
        proof {
            assert forall|k: int| 0 <= k < out@.len() implies #[trigger] membership_views(out@)[k]
                == want[k] by {
                assert(out@[k].0@ == want[k].0);
            }
            assert(membership_views(out@) =~= want);
        }
        StaticDirectoryLookup { memberships: out, lookups: 0 }
    }

    fn groups_of(&self, key: &String) -> (r: Option<Vec<String>>)
        ensures
            match r {
                Some(gs) => self.memberships().contains_key(key@) && string_views(gs@)
                    == self.memberships()[key@],
                None => !self.memberships().contains_key(key@),
            },
    {
        let ghost s = membership_views(self.memberships@);
        let mut i: usize = self.memberships.len();
        while i > 0
            invariant
                i <= self.memberships@.len(),
                s == membership_views(self.memberships@),
                forall|j: int| i <= j < s.len() ==> s[j].0 != key@,
            decreases i,
        {
            if same_text(self.memberships[i - 1].0.as_str(), key.as_str()) {
                proof {
                    lemma_assoc_last(s, key@, i - 1);
                }
                return Some(copy_strings(&self.memberships[i - 1].1));
            }
            i = i - 1;
        }
        proof {
            lemma_assoc_absent(s, key@);
        }
        None
    }

    /// How many lookups were made.
    pub fn lookup_count(&self) -> (r: usize)
        ensures
            r == self.lookups_made(),
    {
        self.lookups
    }
}

/// What one lookup does to the table: the memberships stay, and the count goes up by one,
/// wrapping to zero past `usize::MAX`.
pub open spec fn lookup_call(before: StaticDirectoryLookup, after: StaticDirectoryLookup) -> bool {
    &&& after.memberships() == before.memberships()
    &&& after.lookups_made() == (if before.lookups_made() < usize::MAX {
        before.lookups_made() + 1
    } else {
        0
    })
}

/// A fresh table that is then asked `trace.len() - 1` times (at most `usize::MAX`), successful
/// lookups and refused ones alike, reports exactly that many lookups, and still holds the
/// memberships it was made with.
pub proof fn law_lookup_count_counts_calls(trace: Seq<StaticDirectoryLookup>)
    requires
        1 <= trace.len() <= usize::MAX + 1,
        trace[0].lookups_made() == 0,
        forall|i: int| 0 <= i < trace.len() - 1 ==> lookup_call(#[trigger] trace[i], trace[i + 1]),
    ensures
        trace.last().lookups_made() == trace.len() - 1,
        trace.last().memberships() == trace[0].memberships(),
    decreases trace.len(),
{
    if trace.len() > 1 {
        let front = trace.drop_last();
        assert forall|i: int| 0 <= i < front.len() - 1 implies lookup_call(#[trigger] front[i], front[i + 1]) by {
            assert(front[i] == trace[i] && front[i + 1] == trace[i + 1]);
        }
        law_lookup_count_counts_calls(front);
        assert(lookup_call(trace[trace.len() - 2], trace[trace.len() - 1]));
    }
}

impl DirectoryLookup for StaticDirectoryLookup {
    /// The table's groups for the user's canonical name, none where it has no entry.
    open spec fn listed_groups(&self, user: Seq<char>) -> Seq<Seq<char>> {
        if self.memberships().contains_key(normalized_principal(user)) {
            self.memberships()[normalized_principal(user)]
        } else {
            seq![]
        }
    }

    fn groups_for_user(&mut self, user: &str) -> (r: Result<Vec<String>, AnalyzerError>)
        ensures
            lookup_call(*old(self), *final(self)),
            match principal_error(user@, "user"@) {
                Some(msg) => denied_with(r, msg),
                None => r matches Ok(gs) && string_views(gs@) == (if old(self).memberships().contains_key(
                    normalized_principal(user@),
                ) {
                    old(self).memberships()[normalized_principal(user@)]
                } else {
                    seq![]
                }),
            },
    {
        self.lookups = self.lookups.wrapping_add(1);
        let key = match normalize_principal(user, "user") {
            Ok(k) => k,
            Err(e) => {
                return Err(e);
            },
        };
        match self.groups_of(&key) {
            Some(gs) => Ok(gs),
            None => Ok(Vec::new()),
        }
    }
}

/// How an alias chain ends: at a canonical group, in a cycle, or too deep to follow.
pub enum AliasResolution {
    Resolved(Seq<char>),
    Cycle,
    TooDeep,
}

/// Follows aliases from `current`, at most `fuel` steps, remembering the names seen.
pub open spec fn resolve_alias(
    aliases: Map<Seq<char>, Seq<char>>,
    current: Seq<char>,
    visited: Seq<Seq<char>>,
    fuel: nat,
) -> AliasResolution
    decreases fuel,
{
    if fuel == 0 {
        AliasResolution::TooDeep
    } else if visited.contains(current) {
        AliasResolution::Cycle
    } else if aliases.contains_key(current) && aliases[current] != current {
        resolve_alias(aliases, aliases[current], visited.push(current), (fuel - 1) as nat)
    } else {
        AliasResolution::Resolved(current)
    }
}

/// How many alias steps are followed before giving up.
pub open spec fn alias_depth() -> nat {
    8
}

/// The canonical group of `group`, or the message of the error that resolving it gives.
pub open spec fn canonical_group_result(aliases: Map<Seq<char>, Seq<char>>, group: Seq<char>) -> Result<
    Seq<char>,
    Seq<char>,
> {
    match principal_error(group, "group"@) {
        Some(msg) => Err(msg),
        None => match resolve_alias(aliases, normalized_principal(group), seq![], alias_depth()) {
            AliasResolution::Resolved(c) => Ok(c),
            AliasResolution::Cycle => Err("group alias cycle detected for "@ + group),
            AliasResolution::TooDeep => Err("group alias chain too deep for "@ + group),
        },
    }
}

/// Alias entries as plain values.
pub open spec fn pair_views(v: Seq<(String, String)>) -> Seq<(Seq<char>, Seq<char>)> {
    v.map_values(|e: (String, String)| (e.0@, e.1@))
}

/// The usable alias entries in canonical form; an entry with an unusable name is dropped.
pub open spec fn alias_entries(s: Seq<(Seq<char>, Seq<char>)>) -> Seq<(Seq<char>, Seq<char>)>
    decreases s.len(),
{
    if s.len() == 0 {
        seq![]
    } else {
        let rest = alias_entries(s.drop_last());
        let e = s.last();
        if principal_valid(e.0) && principal_valid(e.1) {
            rest.push((normalized_principal(e.0), normalized_principal(e.1)))
        } else {
            rest
        }
    }
}

/// Cache entries as plain values.
pub open spec fn cache_views(v: Seq<((String, String), bool)>) -> Seq<((Seq<char>, Seq<char>), bool)> {
    v.map_values(|e: ((String, String), bool)| ((e.0.0@, e.0.1@), e.1))
}

/// The answer that a user's listed groups give for `group`: an unusable group name is an
/// error, else whether some listed group is `group` in canonical form.
pub open spec fn groups_verdict(groups: Seq<Seq<char>>, group: Seq<char>) -> Result<bool, Seq<char>>
    decreases groups.len(),
{
    if groups.len() == 0 {
        Ok(false)
    } else {
        match principal_error(groups[0], "group"@) {
            Some(msg) => Err(msg),
            None => match groups_verdict(groups.drop_first(), group) {
                Err(msg) => Err(msg),
                Ok(b) => Ok(b || normalized_principal(groups[0]) == group),
            },
        }
    }
}

/// Decides membership from the groups a directory listed for a user.
pub fn membership_from_groups(groups: &Vec<String>, group: &str) -> (r: Result<bool, AnalyzerError>)
    ensures
        match groups_verdict(string_views(groups@), group@) {
            Ok(b) => r == Ok::<bool, AnalyzerError>(b),
            Err(msg) => denied_with(r, msg),
        },
{
    let ghost gs = string_views(groups@);
    let mut found = false;
    let mut i: usize = 0;
    assert(gs.skip(0) =~= gs);
    while i < groups.len()
        invariant
            i <= groups@.len(),
            gs == string_views(groups@),
            groups_verdict(gs, group@) == match groups_verdict(gs.skip(i as int), group@) {
                Err(msg) => Err(msg),
                Ok(b) => Ok(found || b),
            },
        decreases groups.len() - i,
    {
        assert(gs.skip(i as int)[0] == groups@[i as int]@);
        assert(gs.skip(i as int).drop_first() =~= gs.skip(i + 1));
        match normalize_principal(groups[i].as_str(), "group") {
            Err(e) => {
                return Err(e);
            },
            Ok(n) => {
                if same_text(n.as_str(), group) {
                    found = true;
                }
            },
        }
        i = i + 1;
    }
    assert(gs.skip(i as int).len() == 0);
    Ok(found)
}

/// Group membership from a directory source, with group aliases and a cache of answers.
pub struct ActiveDirectoryProvider<L> {
    source: L,
    group_aliases: Vec<(String, String)>,
    membership_cache: Vec<((String, String), bool)>,
}

impl<L: DirectoryLookup> ActiveDirectoryProvider<L> {
    /// The group aliases, from alias to target.
    pub closed spec fn aliases(&self) -> Map<Seq<char>, Seq<char>> {
        assoc_map(pair_views(self.group_aliases@))
    }

    /// The cached answers, keyed by user and canonical group.
    pub closed spec fn cache(&self) -> Map<(Seq<char>, Seq<char>), bool> {
        assoc_map(cache_views(self.membership_cache@))
    }

    /// The directory the provider asks.
    pub closed spec fn source_view(&self) -> L {
        self.source
    }

    /// The directory the provider asks.
    pub fn directory(&self) -> (r: &L)
        ensures
            *r == self.source_view(),
    {
        &self.source
    }

    /// The cache holds one entry per key.
    pub closed spec fn wf(&self) -> bool {
        keys_unique(cache_views(self.membership_cache@))
    }

    /// A provider without aliases.
    pub fn new(source: L) -> (r: Self)
        ensures
            r.wf(),
            r.source_view() == source,
            r.aliases() == Map::<Seq<char>, Seq<char>>::empty(),
            r.cache() == Map::<(Seq<char>, Seq<char>), bool>::empty(),
    {
        let r = Self::with_group_aliases(source, Vec::new());
        assert(pair_views(Seq::<(String, String)>::empty()) =~= seq![]);
        r
    }

    /// A provider whose group names may be aliases of others; an entry with a blank name or one
    /// with control characters is dropped, and a later entry for an alias replaces an earlier one.
    pub fn with_group_aliases(source: L, group_aliases: Vec<(String, String)>) -> (r: Self)
        ensures
            r.wf(),
            r.source_view() == source,
            r.aliases() == assoc_map(alias_entries(pair_views(group_aliases@))),
            r.cache() == Map::<(Seq<char>, Seq<char>), bool>::empty(),
    {
        let mut out: Vec<(String, String)> = Vec::new();
        let mut i: usize = 0;
        while i < group_aliases.len()
            invariant
                i <= group_aliases@.len(),
                pair_views(out@) == alias_entries(pair_views(group_aliases@).take(i as int)),
            decreases group_aliases.len() - i,
        {
            let ghost before = out@;
            let ghost all = pair_views(group_aliases@);
            assert(all.take(i + 1).drop_last() =~= all.take(i as int));
            let alias = normalize_principal(group_aliases[i].0.as_str(), "group alias");
            let target = normalize_principal(group_aliases[i].1.as_str(), "group alias target");
            match (alias, target) {
                (Ok(a), Ok(t)) => {
                    out.push((a, t));
                    assert(pair_views(out@) =~= pair_views(before).push(
                        (normalized_principal(all[i as int].0), normalized_principal(all[i as int].1)),
                    ));
                },
                _ => {},
            }
            i = i + 1;
        }
        assert(pair_views(group_aliases@).take(i as int) =~= pair_views(group_aliases@));
        let r = ActiveDirectoryProvider { source, group_aliases: out, membership_cache: Vec::new() };
        assert(cache_views(r.membership_cache@) =~= seq![]);
        r
    }

    /// What one membership question does: the aliases stay; an unusable user or group name is
    /// refused with the cache and the directory as they were; a cached answer is given again
    /// without asking the directory; a fresh answer is the verdict on the groups the directory
    /// lists for the user, and is cached; a failed lookup leaves the cache as it was.
    pub open spec fn membership_call(
        before: Self,
        after: Self,
        user: Seq<char>,
        group: Seq<char>,
        r: Result<bool, AnalyzerError>,
    ) -> bool {
        &&& after.aliases() == before.aliases()
        &&& before.wf() ==> after.wf()
        &&& match principal_error(user, "user"@) {
            Some(msg) => denied_with(r, msg) && after.cache() == before.cache()
                && after.source_view() == before.source_view(),
            None => match canonical_group_result(before.aliases(), group) {
                Err(msg) => denied_with(r, msg) && after.cache() == before.cache()
                    && after.source_view() == before.source_view(),
                Ok(g) => {
                    let key = (normalized_principal(user), g);
                    if before.cache().contains_key(key) {
                        r == Ok::<bool, AnalyzerError>(before.cache()[key])
                            && after.cache() == before.cache()
                            && after.source_view() == before.source_view()
                    } else {
                        match r {
                            Ok(b) => after.cache() == before.cache().insert(key, b) && groups_verdict(
                                before.source_view().listed_groups(normalized_principal(user)),
                                g,
                            ) == Ok::<bool, Seq<char>>(b),
                            Err(_) => after.cache() == before.cache(),
                        }
                    }
                },
            },
        }
    }

    /// How many answers are cached.
    pub fn cache_size(&self) -> (r: usize)
        requires
            self.wf(),
        ensures
            r == self.cache().dom().len(),
    {
        proof {
            lemma_assoc_len(cache_views(self.membership_cache@));
        }
        self.membership_cache.len()
    }

    fn alias_target(&self, name: &String) -> (r: Option<String>)
        ensures
            match r {
                Some(t) => self.aliases().contains_key(name@) && t@ == self.aliases()[name@],
                None => !self.aliases().contains_key(name@),
            },
    {
        let ghost s = pair_views(self.group_aliases@);
        let mut i: usize = self.group_aliases.len();
        while i > 0
            invariant
                i <= self.group_aliases@.len(),
                s == pair_views(self.group_aliases@),
                forall|j: int| i <= j < s.len() ==> s[j].0 != name@,
            decreases i,
        {
            if same_text(self.group_aliases[i - 1].0.as_str(), name.as_str()) {
                proof {
                    lemma_assoc_last(s, name@, i - 1);
                }
                return Some(String::from_str(self.group_aliases[i - 1].1.as_str()));
            }
            i = i - 1;
        }
        proof {
            lemma_assoc_absent(s, name@);
        }
        None
    }

    /// The canonical name of `group`: its normalized form, with aliases followed for at most
    /// eight steps; a cycle or a longer chain is refused.
    pub fn canonical_group(&self, group: &str) -> (r: Result<String, AnalyzerError>)
        ensures
            match canonical_group_result(self.aliases(), group@) {
                Ok(c) => r matches Ok(n) && n@ == c,
                Err(msg) => denied_with(r, msg),
            },
    {
        let normalized = match normalize_principal(group, "group") {
            Ok(n) => n,
            Err(e) => {
                return Err(e);
            },
        };
        let ghost m = self.aliases();
        let mut current = normalized;
        let mut visited: Vec<String> = Vec::new();
        let mut step: usize = 0;
        assert(string_views(visited@) =~= seq![]);
        while step < 8
            invariant
                step <= 8,
                principal_error(group@, "group"@) is None,
                m == self.aliases(),
                resolve_alias(m, normalized_principal(group@), seq![], alias_depth()) == resolve_alias(
                    m,
                    current@,
                    string_views(visited@),
                    (8 - step) as nat,
                ),
            decreases 8 - step,
        {
            let mut k: usize = 0;
            while k < visited.len()
                invariant
                    k <= visited@.len(),
                    step < 8,
                    m == self.aliases(),
                    principal_error(group@, "group"@) is None,
                    resolve_alias(m, normalized_principal(group@), seq![], alias_depth()) == resolve_alias(
                        m,
                        current@,
                        string_views(visited@),
                        (8 - step) as nat,
                    ),
                    forall|j: int| 0 <= j < k ==> visited@[j]@ != current@,
                decreases visited.len() - k,
            {
                if same_text(visited[k].as_str(), current.as_str()) {
                    assert(string_views(visited@)[k as int] == current@);
                    assert(string_views(visited@).contains(current@));
                    return Err(denied_for("group alias cycle detected for ", group));
                }
                k = k + 1;
            }
            assert(!string_views(visited@).contains(current@)) by {
                if string_views(visited@).contains(current@) {
                    let j = choose|j: int|
                        0 <= j < string_views(visited@).len() && string_views(visited@)[j] == current@;
                    assert(visited@[j]@ == current@);
                }
            }
            let ghost before = visited@;
            visited.push(String::from_str(current.as_str()));
            assert(string_views(visited@) =~= string_views(before).push(current@));
            match self.alias_target(&current) {
                Some(next) => {
                    if same_text(next.as_str(), current.as_str()) {
                        return Ok(current);
                    }
                    current = next;
                },
                None => {
                    return Ok(current);
                },
            }
            step = step + 1;
        }
        Err(denied_for("group alias chain too deep for ", group))
    }

    fn cached_answer(&self, user: &String, group: &String) -> (r: Option<bool>)
        ensures
            match r {
                Some(b) => self.cache().contains_key((user@, group@)) && b == self.cache()[(
                    user@,
                    group@,
                )],
                None => !self.cache().contains_key((user@, group@)),
            },
    {
        let ghost s = cache_views(self.membership_cache@);
        let mut i: usize = self.membership_cache.len();
        while i > 0
            invariant
                i <= self.membership_cache@.len(),
                s == cache_views(self.membership_cache@),
                forall|j: int| i <= j < s.len() ==> s[j].0 != (user@, group@),
            decreases i,
        {
            let entry = &self.membership_cache[i - 1];
            if same_text(entry.0.0.as_str(), user.as_str()) && same_text(
                entry.0.1.as_str(),
                group.as_str(),
            ) {
                proof {
                    lemma_assoc_last(s, (user@, group@), i - 1);
                }
                return Some(entry.1);
            }
            i = i - 1;
        }
        proof {
            lemma_assoc_absent(s, (user@, group@));
        }
        None
    }
}

impl<L: DirectoryLookup> DirectoryProvider for ActiveDirectoryProvider<L> {
    /// Whether `user` is in `group` (after aliases); a cached answer is given again without
    /// asking the directory (the directory is left as it was), and a fresh one is cached.
    fn is_in_group(&mut self, user: &str, group: &str) -> (r: Result<bool, AnalyzerError>)
        ensures
            Self::membership_call(*old(self), *final(self), user@, group@, r),
    {
        let user_n = match normalize_principal(user, "user") {
            Ok(u) => u,
            Err(e) => {
                return Err(e);
            },
        };
        let group_c = match self.canonical_group(group) {
            Ok(g) => g,
            Err(e) => {
                return Err(e);
            },
        };
        match self.cached_answer(&user_n, &group_c) {
            Some(b) => {
                return Ok(b);
            },
            None => {},
        }
        let groups = match self.source.groups_for_user(user_n.as_str()) {
            Ok(gs) => gs,
            Err(e) => {
                return Err(e);
            },
        };
        let allowed = match membership_from_groups(&groups, group_c.as_str()) {
            Ok(b) => b,
            Err(e) => {
                return Err(e);
            },
        };
        let ghost before = cache_views(self.membership_cache@);
        let ghost key = (user_n@, group_c@);
        self.membership_cache.push(((user_n, group_c), allowed));
        proof {
            assert(cache_views(self.membership_cache@) =~= before.push((key, allowed)));
            assert(cache_views(self.membership_cache@).drop_last() =~= before);
            lemma_assoc_absent_keys(before, key);
            assert(keys_unique(before) ==> keys_unique(cache_views(self.membership_cache@)));
        }
        Ok(allowed)
    }
}

/// A question answered once is answered again from the cache: when a provider answered `Ok(b)`
/// for `user` and `group`, a following question whose user has the same canonical name and
/// whose group resolves to the same canonical group gets `Ok(b)` again, without asking the
/// directory (the directory is left as it was) and without a new cache entry.
pub proof fn law_repeated_question_answered_from_cache<L: DirectoryLookup>(
    p0: ActiveDirectoryProvider<L>,
    p1: ActiveDirectoryProvider<L>,
    p2: ActiveDirectoryProvider<L>,
    user: Seq<char>,
    group: Seq<char>,
    user2: Seq<char>,
    group2: Seq<char>,
    b: bool,
    r2: Result<bool, AnalyzerError>,
)
    requires
        ActiveDirectoryProvider::<L>::membership_call(p0, p1, user, group, Ok(b)),
        ActiveDirectoryProvider::<L>::membership_call(p1, p2, user2, group2, r2),
        principal_error(user2, "user"@) is None,
        normalized_principal(user2) == normalized_principal(user),
        canonical_group_result(p0.aliases(), group2) == canonical_group_result(p0.aliases(), group),
    ensures
        r2 == Ok::<bool, AnalyzerError>(b),
        p2.cache() == p1.cache(),
        p2.source_view() == p1.source_view(),
{
}

/// The cache key of a question: the user's canonical name and the group's canonical name.
pub open spec fn question_key(aliases: Map<Seq<char>, Seq<char>>, user: Seq<char>, group: Seq<char>) -> (
    Seq<char>,
    Seq<char>,
) {
    (normalized_principal(user), match canonical_group_result(aliases, group) {
        Ok(g) => g,
        Err(_) => seq![],
    })
}

/// The keys of the questions that were answered (with `Ok`), in a run of questions.
pub open spec fn answered_keys(
    aliases: Map<Seq<char>, Seq<char>>,
    calls: Seq<(Seq<char>, Seq<char>)>,
    results: Seq<Result<bool, AnalyzerError>>,
) -> Set<(Seq<char>, Seq<char>)>
    decreases calls.len(),
{
    if calls.len() == 0 {
        Set::empty()
    } else {
        let earlier = answered_keys(aliases, calls.drop_last(), results.drop_last());
        if results.last() is Ok {
            earlier.insert(question_key(aliases, calls.last().0, calls.last().1))
        } else {
            earlier
        }
    }
}

/// A provider that starts with an empty cache and is asked `calls` in turn, answering
/// `results`, ends up caching exactly the distinct keys (canonical user, canonical group) of the
/// questions it answered; refused questions and failed lookups add nothing. Its `cache_size`
/// is the number of those keys.
pub proof fn law_cache_holds_answered_questions<L: DirectoryLookup>(
    trace: Seq<ActiveDirectoryProvider<L>>,
    calls: Seq<(Seq<char>, Seq<char>)>,
    results: Seq<Result<bool, AnalyzerError>>,
)
    requires
        trace.len() == calls.len() + 1,
        results.len() == calls.len(),
        trace[0].wf(),
        trace[0].cache() == Map::<(Seq<char>, Seq<char>), bool>::empty(),
        forall|i: int|
            0 <= i < calls.len() ==> ActiveDirectoryProvider::<L>::membership_call(
                #[trigger] trace[i],
                trace[i + 1],
                calls[i].0,
                calls[i].1,
                results[i],
            ),
    ensures
        trace.last().wf(),
        trace.last().aliases() == trace[0].aliases(),
        trace.last().cache().dom() == answered_keys(trace[0].aliases(), calls, results),
    decreases calls.len(),
{
    if calls.len() == 0 {
        assert(trace.last().cache().dom() =~= Set::<(Seq<char>, Seq<char>)>::empty());
    } else {
        let n = calls.len() - 1;
        let front = trace.drop_last();
        assert forall|i: int| 0 <= i < calls.drop_last().len() implies ActiveDirectoryProvider::<
            L,
        >::membership_call(
            #[trigger] front[i],
            front[i + 1],
            calls.drop_last()[i].0,
            calls.drop_last()[i].1,
            results.drop_last()[i],
        ) by {
            assert(front[i] == trace[i] && front[i + 1] == trace[i + 1]);
        }
        law_cache_holds_answered_questions(front, calls.drop_last(), results.drop_last());
        let b = trace[n];
        let a = trace[n + 1];
        assert(ActiveDirectoryProvider::<L>::membership_call(b, a, calls[n].0, calls[n].1, results[n]));
        let earlier = answered_keys(trace[0].aliases(), calls.drop_last(), results.drop_last());
        assert(b.cache().dom() == earlier);
        let key = question_key(trace[0].aliases(), calls[n].0, calls[n].1);
        if results[n] is Ok {
            assert(a.cache().dom() =~= earlier.insert(key));
        } else {
            assert(a.cache().dom() =~= earlier);
        }
    }
}

proof fn lemma_assoc_absent_keys(s: Seq<((Seq<char>, Seq<char>), bool)>, k: (Seq<char>, Seq<char>))
    requires
        !assoc_map(s).contains_key(k),
    ensures
        forall|j: int| 0 <= j < s.len() ==> s[j].0 != k,
{
    assert forall|j: int| 0 <= j < s.len() implies s[j].0 != k by {
        if s[j].0 == k {
            lemma_last_entry_exists(s, k, j);
        }
    }
}

proof fn lemma_last_entry_exists(s: Seq<((Seq<char>, Seq<char>), bool)>, k: (Seq<char>, Seq<char>), j: int)
    requires
        0 <= j < s.len(),
        s[j].0 == k,
    ensures
        assoc_map(s).contains_key(k),
    decreases s.len(),
{
    if j < s.len() - 1 {
        lemma_last_entry_exists(s.drop_last(), k, j);
    }
}

} // verus!
