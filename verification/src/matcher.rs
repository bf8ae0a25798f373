//! Finding saved servers by a short query.

use vstd::prelude::*;
use vstd::string::*;
use vstd::utf8::is_ascii_chars;

use crate::config::Server;
use crate::text::{
    ascii_lower, contains, contains_text, ends_with, law_contained_text_has_a_place, same_text, texts,
};

verus! {

/// What `str::to_lowercase` makes of a text.
pub uninterp spec fn lowercase(s: Seq<char>) -> Seq<char>;

/// `str::to_lowercase`: the text in lower case by Unicode's rules. What it
/// gives depends on the text alone; of a text of ASCII characters it makes the
/// capital letters small and keeps the rest.
#[verifier::external_body]
fn to_lowercase(s: &str) -> (r: String)
    ensures
        r@ == lowercase(s@),
        is_ascii_chars(s@) ==> r@ == ascii_lower(s@),
{
    s.to_lowercase()
}

/// The ways in which a server can match a query, the strongest first.
#[derive(Debug, Clone, Copy, PartialEq, Eq, Structural)]
pub enum Tier {
    /// The alias is the query.
    ExactAlias,
    /// The host ends with the query.
    HostSuffix,
    /// The alias contains the query, whatever the case of their letters.
    AliasPart,
    /// The host contains the query.
    HostPart,
}

/// Whether a server with this alias, as it is saved and in lower case, and this
/// host matches a query in the way of a tier.
pub open spec fn matches_at(
    tier: Tier,
    alias: Seq<char>,
    alias_lower: Seq<char>,
    host: Seq<char>,
    query: Seq<char>,
    query_lower: Seq<char>,
) -> bool {
    match tier {
        Tier::ExactAlias => alias == query,
        Tier::HostSuffix => query.is_suffix_of(host),
        Tier::AliasPart => contains_text(alias_lower, query_lower),
        Tier::HostPart => contains_text(host, query),
    }
}

/// The positions below `n` at which a predicate holds, in ascending order.
pub open spec fn positions(n: nat, holds: spec_fn(int) -> bool) -> Seq<int>
    decreases n,
{
    if n == 0 {
        Seq::empty()
    } else if holds(n - 1) {
        positions((n - 1) as nat, holds).push(n - 1)
    } else {
        positions((n - 1) as nat, holds)
    }
}

/// The positions of the servers that match at a tier.
pub open spec fn tier_positions(
    tier: Tier,
    aliases: Seq<Seq<char>>,
    lowered: Seq<Seq<char>>,
    hosts: Seq<Seq<char>>,
    query: Seq<char>,
    query_lower: Seq<char>,
) -> Seq<int> {
    positions(
        hosts.len(),
        |i: int| matches_at(tier, aliases[i], lowered[i], hosts[i], query, query_lower),
    )
}

/// The positions of the servers that win: those of the strongest tier at which
/// any server matches.
pub open spec fn winners(
    aliases: Seq<Seq<char>>,
    lowered: Seq<Seq<char>>,
    hosts: Seq<Seq<char>>,
    query: Seq<char>,
    query_lower: Seq<char>,
) -> Seq<int> {
    let exact = tier_positions(Tier::ExactAlias, aliases, lowered, hosts, query, query_lower);
    let suffix = tier_positions(Tier::HostSuffix, aliases, lowered, hosts, query, query_lower);
    let alias = tier_positions(Tier::AliasPart, aliases, lowered, hosts, query, query_lower);
    if exact.len() > 0 {
        exact
    } else if suffix.len() > 0 {
        suffix
    } else if alias.len() > 0 {
        alias
    } else {
        tier_positions(Tier::HostPart, aliases, lowered, hosts, query, query_lower)
    }
}

/// The hosts of a list of servers.
pub open spec fn hosts_of(servers: Seq<Server>) -> Seq<Seq<char>> {
    Seq::new(servers.len(), |i: int| servers[i].host@)
}

/// The aliases of a list of servers.
pub open spec fn aliases_of(servers: Seq<Server>) -> Seq<Seq<char>> {
    Seq::new(servers.len(), |i: int| servers[i].alias@)
}

/// The aliases of a list of servers, in lower case.
pub open spec fn lowered_of(servers: Seq<Server>) -> Seq<Seq<char>> {
    Seq::new(servers.len(), |i: int| lowercase(servers[i].alias@))
}

/// The positions of the servers that a query selects.
pub open spec fn selected(servers: Seq<Server>, query: Seq<char>) -> Seq<int> {
    winners(
        aliases_of(servers),
        lowered_of(servers),
        hosts_of(servers),
        query,
        lowercase(query),
    )
}

/// The positions in a list of machine integers as mathematical ones.
pub open spec fn as_ints(v: Seq<usize>) -> Seq<int> {
    Seq::new(v.len(), |i: int| v[i] as int)
}

fn tier_scan(
    tier: Tier,
    servers: &[Server],
    lowered: &[String],
    query: &str,
    query_lower: &str,
) -> (r: Vec<usize>)
    requires
        lowered@.len() == servers@.len(),
    ensures
        as_ints(r@) == tier_positions(
            tier,
            aliases_of(servers@),
            texts(lowered@),
            hosts_of(servers@),
            query@,
            query_lower@,
        ),
{
    let ghost saved = aliases_of(servers@);
    let ghost lows = texts(lowered@);
    let ghost hosts = hosts_of(servers@);
    let ghost holds = |i: int|
        matches_at(tier, saved[i], lows[i], hosts[i], query@, query_lower@);
    let mut r: Vec<usize> = Vec::new();
    let mut i: usize = 0;
    assert(as_ints(r@) =~= positions(0, holds));
    while i < servers.len()
        invariant
            i <= servers.len(),
            lowered@.len() == servers@.len(),
            saved == aliases_of(servers@),
            lows == texts(lowered@),
            hosts == hosts_of(servers@),
            holds == (|i: int|
                matches_at(tier, saved[i], lows[i], hosts[i], query@, query_lower@)),
            as_ints(r@) == positions(i as nat, holds),
        decreases servers.len() - i,
    {
        let hit = match tier {
            Tier::ExactAlias => same_text(servers[i].alias.as_str(), query),
            Tier::HostSuffix => ends_with(servers[i].host.as_str(), query),
            Tier::AliasPart => contains(lowered[i].as_str(), query_lower),
            Tier::HostPart => contains(servers[i].host.as_str(), query),
        };
        assert(hit == holds(i as int));
        let ghost before = r@;
        if hit {
            r.push(i);
            assert(as_ints(r@) =~= as_ints(before).push(i as int));
        }
        i = i + 1;
    }
    assert(holds =~= |i: int|
        matches_at(tier, saved[i], lows[i], hosts[i], query@, query_lower@));
    r
}

/// The positions of the servers that a query selects, given the aliases and the
/// query in lower case.
pub fn match_lowered(
    servers: &[Server],
    lowered: &[String],
    query: &str,
    query_lower: &str,
) -> (r: Vec<usize>)
    requires
        lowered@.len() == servers@.len(),
    ensures
        as_ints(r@) == winners(
            aliases_of(servers@),
            texts(lowered@),
            hosts_of(servers@),
            query@,
            query_lower@,
        ),
{
    let exact = tier_scan(Tier::ExactAlias, servers, lowered, query, query_lower);
    if exact.len() > 0 {
        return exact;
    }
    let suffix = tier_scan(Tier::HostSuffix, servers, lowered, query, query_lower);
    if suffix.len() > 0 {
        return suffix;
    }
    let alias = tier_scan(Tier::AliasPart, servers, lowered, query, query_lower);
    if alias.len() > 0 {
        return alias;
    }
    tier_scan(Tier::HostPart, servers, lowered, query, query_lower)
}

/// Whether the aliases of all servers hold only ASCII characters.
pub open spec fn ascii_aliases(servers: Seq<Server>) -> bool {
    forall|i: int| 0 <= i < servers.len() ==> is_ascii_chars(#[trigger] servers[i].alias@)
}

/// The positions of the servers that a query of ASCII characters selects among
/// servers with such aliases.
pub open spec fn selected_ascii(servers: Seq<Server>, query: Seq<char>) -> Seq<int> {
    winners(
        aliases_of(servers),
        Seq::new(servers.len(), |i: int| ascii_lower(servers[i].alias@)),
        hosts_of(servers),
        query,
        ascii_lower(query),
    )
}

/// The positions of the servers that a query selects, in ascending order.
pub fn match_positions(servers: &[Server], query: &str) -> (r: Vec<usize>)
    ensures
        as_ints(r@) == selected(servers@, query@),
        ascii_aliases(servers@) && is_ascii_chars(query@) ==> as_ints(r@) == selected_ascii(
            servers@,
            query@,
        ),
        forall|k: int| 0 <= k < r@.len() ==> (#[trigger] r@[k]) < servers@.len(),
{
    let query_lower = to_lowercase(query);
    let mut lowered: Vec<String> = Vec::new();
    let mut i: usize = 0;
    while i < servers.len()
        invariant
            i <= servers.len(),
            lowered@.len() == i,
            forall|k: int| 0 <= k < i ==> (#[trigger] lowered@[k])@ == lowercase(servers@[k].alias@),
            forall|k: int|
                0 <= k < i && is_ascii_chars(servers@[k].alias@) ==> (#[trigger] lowered@[k])@
                    == ascii_lower(servers@[k].alias@),
        decreases servers.len() - i,
    {
        lowered.push(to_lowercase(servers[i].alias.as_str()));
        i = i + 1;
    }
    assert(texts(lowered@) =~= lowered_of(servers@));
    proof {
        if ascii_aliases(servers@) {
            assert forall|k: int| 0 <= k < servers@.len() implies (#[trigger] lowered@[k])@
                == ascii_lower(servers@[k].alias@) by {
                assert(is_ascii_chars(servers@[k].alias@));
            }
            assert(texts(lowered@) =~= Seq::new(
                servers@.len(),
                |i: int| ascii_lower(servers@[i].alias@),
            ));
        }
    }
    let r = match_lowered(servers, lowered.as_slice(), query, query_lower.as_str());
    proof {
        law_selection_in_order(servers@, query@);
        assert forall|k: int| 0 <= k < r@.len() implies (#[trigger] r@[k]) < servers@.len() by {
            assert(as_ints(r@)[k] == selected(servers@, query@)[k]);
        }
    }
    r
}

/// The servers that a query selects, in the order in which they are saved.
pub fn match_servers<'a>(servers: &'a [Server], query: &str) -> (r: Vec<&'a Server>)
    ensures
        r@.len() == selected(servers@, query@).len(),
        forall|k: int|
            0 <= k < r@.len() ==> *(#[trigger] r@[k]) == servers@[selected(servers@, query@)[k]],
        ascii_aliases(servers@) && is_ascii_chars(query@) ==> selected(servers@, query@)
            == selected_ascii(servers@, query@),
{
    let at = match_positions(servers, query);
    let mut r: Vec<&'a Server> = Vec::new();
    let mut i: usize = 0;
    while i < at.len()
        invariant
            i <= at.len(),
            r@.len() == i,
            as_ints(at@) == selected(servers@, query@),
            forall|k: int| 0 <= k < at@.len() ==> (#[trigger] at@[k]) < servers@.len(),
            forall|k: int| 0 <= k < i ==> *(#[trigger] r@[k]) == servers@[at@[k] as int],
        decreases at.len() - i,
    {
        r.push(&servers[at[i]]);
        i = i + 1;
    }
    assert forall|k: int| 0 <= k < r@.len() implies *(#[trigger] r@[k]) == servers@[selected(
        servers@,
        query@,
    )[k]] by {
        assert(as_ints(at@)[k] == at@[k] as int);
    }
    r
}

proof fn lemma_positions(n: nat, holds: spec_fn(int) -> bool)
    ensures
        forall|k: int|
            0 <= k < positions(n, holds).len() ==> 0 <= (#[trigger] positions(n, holds)[k]) < n
                && holds(positions(n, holds)[k]),
        forall|j: int, k: int|
            0 <= j < k < positions(n, holds).len() ==> (#[trigger] positions(n, holds)[j])
                < (#[trigger] positions(n, holds)[k]),
        forall|i: int|
            0 <= i < n && holds(i) ==> #[trigger] positions(n, holds).contains(i),
    decreases n,
{
    if n > 0 {
        let m = (n - 1) as nat;
        lemma_positions(m, holds);
        let before = positions(m, holds);
        assert forall|i: int| 0 <= i < n && holds(i) implies #[trigger] positions(n, holds).contains(
            i,
        ) by {
            if i == n - 1 {
                assert(positions(n, holds)[before.len() as int] == i);
            } else {
                assert(before.contains(i));
                let k = choose|k: int| 0 <= k < before.len() && before[k] == i;
                assert(positions(n, holds)[k] == i);
            }
        }
    }
}

/// Whether the server at a position matches a query in the way of a tier.
pub open spec fn server_matches(servers: Seq<Server>, i: int, query: Seq<char>, tier: Tier) -> bool {
    0 <= i < servers.len() && matches_at(
        tier,
        servers[i].alias@,
        lowercase(servers[i].alias@),
        servers[i].host@,
        query,
        lowercase(query),
    )
}

/// Whether any server matches a query in the way of a tier.
pub open spec fn any_matches(servers: Seq<Server>, query: Seq<char>, tier: Tier) -> bool {
    exists|i: int| server_matches(servers, i, query, tier)
}

/// The tier of the servers that a query selects: the strongest at which any
/// server matches.
pub open spec fn winning_tier(servers: Seq<Server>, query: Seq<char>) -> Tier {
    if any_matches(servers, query, Tier::ExactAlias) {
        Tier::ExactAlias
    } else if any_matches(servers, query, Tier::HostSuffix) {
        Tier::HostSuffix
    } else if any_matches(servers, query, Tier::AliasPart) {
        Tier::AliasPart
    } else {
        Tier::HostPart
    }
}

proof fn lemma_tier(servers: Seq<Server>, query: Seq<char>, tier: Tier)
    ensures
        ({
            let p = tier_positions(
                tier,
                aliases_of(servers),
                lowered_of(servers),
                hosts_of(servers),
                query,
                lowercase(query),
            );
            &&& forall|i: int| #[trigger] p.contains(i) <==> server_matches(servers, i, query, tier)
            &&& forall|j: int, k: int| 0 <= j < k < p.len() ==> (#[trigger] p[j]) < (#[trigger] p[k])
            &&& p.len() > 0 <==> any_matches(servers, query, tier)
        }),
{
    let aliases = aliases_of(servers);
    let lowered = lowered_of(servers);
    let hosts = hosts_of(servers);
    let holds = |i: int|
        matches_at(tier, aliases[i], lowered[i], hosts[i], query, lowercase(query));
    let p = tier_positions(tier, aliases, lowered, hosts, query, lowercase(query));
    lemma_positions(servers.len(), holds);
    assert(p == positions(servers.len(), holds));
    assert forall|i: int| #[trigger] p.contains(i) <==> server_matches(servers, i, query, tier) by {
        if p.contains(i) {
            let k = choose|k: int| 0 <= k < p.len() && p[k] == i;
            assert(holds(p[k]));
        }
        if server_matches(servers, i, query, tier) {
            assert(holds(i));
        }
    }
    if p.len() > 0 {
        assert(p.contains(p[0]));
    }
    if any_matches(servers, query, tier) {
        let i = choose|i: int| server_matches(servers, i, query, tier);
        assert(p.contains(i));
    }
}

/// A query selects exactly the servers that match at the strongest tier at
/// which any server matches: an exact alias goes before the end of a host, that
/// before a part of an alias, and that before a part of a host.
pub proof fn law_strongest_tier_wins(servers: Seq<Server>, query: Seq<char>)
    ensures
        forall|i: int|
            #[trigger] selected(servers, query).contains(i) <==> server_matches(
                servers,
                i,
                query,
                winning_tier(servers, query),
            ),
{
    lemma_tier(servers, query, Tier::ExactAlias);
    lemma_tier(servers, query, Tier::HostSuffix);
    lemma_tier(servers, query, Tier::AliasPart);
    lemma_tier(servers, query, Tier::HostPart);
}

/// The selected servers keep the order in which they are saved, and none is
/// selected twice.
pub proof fn law_selection_in_order(servers: Seq<Server>, query: Seq<char>)
    ensures
        forall|k: int|
            0 <= k < selected(servers, query).len() ==> 0 <= (#[trigger] selected(
                servers,
                query,
            )[k]) < servers.len(),
        forall|j: int, k: int|
            0 <= j < k < selected(servers, query).len() ==> (#[trigger] selected(servers, query)[j])
                < (#[trigger] selected(servers, query)[k]),
{
    lemma_tier(servers, query, Tier::ExactAlias);
    lemma_tier(servers, query, Tier::HostSuffix);
    lemma_tier(servers, query, Tier::AliasPart);
    lemma_tier(servers, query, Tier::HostPart);
    let p = selected(servers, query);
    assert forall|k: int| 0 <= k < p.len() implies 0 <= (#[trigger] p[k]) < servers.len() by {
        assert(p.contains(p[k]));
    }
}

/// A server whose alias is the query is selected, and so are only servers whose
/// alias is the query.
pub proof fn law_exact_alias_wins(servers: Seq<Server>, query: Seq<char>, i: int)
    requires
        0 <= i < servers.len(),
        servers[i].alias@ == query,
    ensures
        selected(servers, query).contains(i),
        forall|j: int| #[trigger]
            selected(servers, query).contains(j) ==> servers[j].alias@ == query,
{
    law_strongest_tier_wins(servers, query);
    assert(server_matches(servers, i, query, Tier::ExactAlias));
}

/// Nothing is selected only where no server matches in any way.
pub proof fn law_nothing_selected_without_match(servers: Seq<Server>, query: Seq<char>)
    ensures
        selected(servers, query).len() == 0 <==> (forall|tier: Tier|
            !#[trigger] any_matches(servers, query, tier)),
{
    lemma_tier(servers, query, Tier::ExactAlias);
    lemma_tier(servers, query, Tier::HostSuffix);
    lemma_tier(servers, query, Tier::AliasPart);
    lemma_tier(servers, query, Tier::HostPart);
    if selected(servers, query).len() == 0 {
        assert forall|tier: Tier| !#[trigger] any_matches(servers, query, tier) by {
            match tier {
                Tier::ExactAlias => {},
                Tier::HostSuffix => {},
                Tier::AliasPart => {},
                Tier::HostPart => {},
            }
        }
    } else {
        let tier = winning_tier(servers, query);
        assert(any_matches(servers, query, tier));
    }
}

/// Where some alias is the query, exactly the servers with that alias are
/// selected.
pub proof fn law_equal_aliases_are_selected(servers: Seq<Server>, query: Seq<char>)
    requires
        exists|i: int| 0 <= i < servers.len() && (#[trigger] servers[i]).alias@ == query,
    ensures
        forall|i: int| #[trigger]
            selected(servers, query).contains(i) <==> 0 <= i < servers.len() && servers[i].alias@
                == query,
{
    law_strongest_tier_wins(servers, query);
    let i = choose|i: int| 0 <= i < servers.len() && (#[trigger] servers[i]).alias@ == query;
    assert(server_matches(servers, i, query, Tier::ExactAlias));
}

/// Where no alias is the query and some host ends with it, exactly the servers
/// whose host ends with it are selected, wherever in the host it begins.
pub proof fn law_host_ends_are_selected(servers: Seq<Server>, query: Seq<char>)
    requires
        forall|i: int| 0 <= i < servers.len() ==> (#[trigger] servers[i]).alias@ != query,
        exists|i: int|
            0 <= i < servers.len() && query.is_suffix_of((#[trigger] servers[i]).host@),
    ensures
        forall|i: int| #[trigger]
            selected(servers, query).contains(i) <==> 0 <= i < servers.len() && query.is_suffix_of(
                servers[i].host@,
            ),
{
    law_strongest_tier_wins(servers, query);
    let i = choose|i: int|
        0 <= i < servers.len() && query.is_suffix_of((#[trigger] servers[i]).host@);
    assert(server_matches(servers, i, query, Tier::HostSuffix));
    if any_matches(servers, query, Tier::ExactAlias) {
        let j = choose|j: int| server_matches(servers, j, query, Tier::ExactAlias);
        assert(servers[j].alias@ == query);
    }
}

/// Where no alias is the query, no host ends with it and some alias contains it
/// in lower case, exactly the servers whose alias does are selected.
pub proof fn law_alias_parts_are_selected(servers: Seq<Server>, query: Seq<char>, k: int)
    requires
        forall|i: int| 0 <= i < servers.len() ==> (#[trigger] servers[i]).alias@ != query,
        forall|i: int|
            0 <= i < servers.len() ==> !query.is_suffix_of((#[trigger] servers[i]).host@),
        0 <= k < servers.len(),
        exists|a: Seq<char>, b: Seq<char>|
            lowercase(servers[k].alias@) == #[trigger] (a + lowercase(query) + b),
    ensures
        forall|i: int| #[trigger]
            selected(servers, query).contains(i) <==> 0 <= i < servers.len() && exists|
                a: Seq<char>,
                b: Seq<char>,
            |
                lowercase(servers[i].alias@) == #[trigger] (a + lowercase(query) + b),
{
    law_strongest_tier_wins(servers, query);
    law_contained_text_has_a_place(lowercase(servers[k].alias@), lowercase(query));
    assert(server_matches(servers, k, query, Tier::AliasPart));
    if any_matches(servers, query, Tier::ExactAlias) {
        let j = choose|j: int| server_matches(servers, j, query, Tier::ExactAlias);
        assert(servers[j].alias@ == query);
    }
    if any_matches(servers, query, Tier::HostSuffix) {
        let j = choose|j: int| server_matches(servers, j, query, Tier::HostSuffix);
        assert(query.is_suffix_of(servers[j].host@));
    }
    assert(winning_tier(servers, query) == Tier::AliasPart);
    assert forall|i: int| #[trigger]
        selected(servers, query).contains(i) <==> 0 <= i < servers.len() && exists|
            a: Seq<char>,
            b: Seq<char>,
        |
            lowercase(servers[i].alias@) == #[trigger] (a + lowercase(query) + b) by {
        law_contained_text_has_a_place(lowercase(servers[i].alias@), lowercase(query));
    }
}

/// Where no alias is the query, no host ends with it and no alias contains it in
/// lower case, exactly the servers whose host contains it are selected.
pub proof fn law_host_parts_are_selected(servers: Seq<Server>, query: Seq<char>)
    requires
        forall|i: int| 0 <= i < servers.len() ==> (#[trigger] servers[i]).alias@ != query,
        forall|i: int|
            0 <= i < servers.len() ==> !query.is_suffix_of((#[trigger] servers[i]).host@),
        forall|i: int, a: Seq<char>, b: Seq<char>|
            0 <= i < servers.len() ==> lowercase((#[trigger] servers[i]).alias@) != #[trigger] (a
                + lowercase(query) + b),
    ensures
        forall|i: int| #[trigger]
            selected(servers, query).contains(i) <==> 0 <= i < servers.len() && exists|
                a: Seq<char>,
                b: Seq<char>,
            |
                servers[i].host@ == #[trigger] (a + query + b),
{
    law_strongest_tier_wins(servers, query);
    if any_matches(servers, query, Tier::ExactAlias) {
        let j = choose|j: int| server_matches(servers, j, query, Tier::ExactAlias);
        assert(servers[j].alias@ == query);
    }
    if any_matches(servers, query, Tier::HostSuffix) {
        let j = choose|j: int| server_matches(servers, j, query, Tier::HostSuffix);
        assert(query.is_suffix_of(servers[j].host@));
    }
    if any_matches(servers, query, Tier::AliasPart) {
        let j = choose|j: int| server_matches(servers, j, query, Tier::AliasPart);
        law_contained_text_has_a_place(lowercase(servers[j].alias@), lowercase(query));
        assert(0 <= j < servers.len());
    }
    assert(winning_tier(servers, query) == Tier::HostPart);
    assert forall|i: int| #[trigger]
        selected(servers, query).contains(i) <==> 0 <= i < servers.len() && exists|
            a: Seq<char>,
            b: Seq<char>,
        |
            servers[i].host@ == #[trigger] (a + query + b) by {
        law_contained_text_has_a_place(servers[i].host@, query);
    }
}

/// Among ASCII texts, where no alias is the query and no host ends with it, a
/// server is selected for its alias where that contains the query once the
/// capitals of both are made small.
pub proof fn law_ascii_selection_by_parts(servers: Seq<Server>, query: Seq<char>, i: int)
    requires
        forall|j: int| 0 <= j < servers.len() ==> (#[trigger] servers[j]).alias@ != query,
        forall|j: int|
            0 <= j < servers.len() ==> !query.is_suffix_of((#[trigger] servers[j]).host@),
        0 <= i < servers.len(),
        exists|a: Seq<char>, b: Seq<char>|
            ascii_lower(servers[i].alias@) == #[trigger] (a + ascii_lower(query) + b),
    ensures
        selected_ascii(servers, query).contains(i),
        forall|j: int| #[trigger]
            selected_ascii(servers, query).contains(j) ==> 0 <= j < servers.len() && exists|
                a: Seq<char>,
                b: Seq<char>,
            |
                ascii_lower(servers[j].alias@) == #[trigger] (a + ascii_lower(query) + b),
{
    let aliases = aliases_of(servers);
    let lowered = Seq::new(servers.len(), |i: int| ascii_lower(servers[i].alias@));
    let hosts = hosts_of(servers);
    let q = ascii_lower(query);
    let exact = |i: int|
        matches_at(Tier::ExactAlias, aliases[i], lowered[i], hosts[i], query, q);
    let ends = |i: int| matches_at(Tier::HostSuffix, aliases[i], lowered[i], hosts[i], query, q);
    let part = |i: int| matches_at(Tier::AliasPart, aliases[i], lowered[i], hosts[i], query, q);
    lemma_positions(hosts.len(), exact);
    lemma_positions(hosts.len(), ends);
    lemma_positions(hosts.len(), part);
    assert(tier_positions(Tier::ExactAlias, aliases, lowered, hosts, query, q) == positions(
        hosts.len(),
        exact,
    ));
    assert(tier_positions(Tier::HostSuffix, aliases, lowered, hosts, query, q) == positions(
        hosts.len(),
        ends,
    ));
    assert(tier_positions(Tier::AliasPart, aliases, lowered, hosts, query, q) == positions(
        hosts.len(),
        part,
    ));
    let p = positions(hosts.len(), exact);
    if p.len() > 0 {
        assert(exact(p[0]));
        assert(servers[p[0]].alias@ == query);
    }
    let p = positions(hosts.len(), ends);
    if p.len() > 0 {
        assert(ends(p[0]));
        assert(query.is_suffix_of(servers[p[0]].host@));
    }
    law_contained_text_has_a_place(lowered[i], q);
    assert(part(i));
    let p = positions(hosts.len(), part);
    assert(p.contains(i));
    assert(selected_ascii(servers, query) == p);
    assert forall|j: int| #[trigger] p.contains(j) implies 0 <= j < servers.len() && exists|
        a: Seq<char>,
        b: Seq<char>,
    |
        ascii_lower(servers[j].alias@) == #[trigger] (a + q + b) by {
        let k = choose|k: int| 0 <= k < p.len() && p[k] == j;
        assert(part(p[k]));
        law_contained_text_has_a_place(lowered[j], q);
    }
}

/// Positions are the same numbers in the same order, whichever kind of integer they
/// are written in.
pub proof fn law_positions_keep_their_numbers(v: Seq<usize>, i: int)
    requires
        0 <= i < v.len(),
    ensures
        as_ints(v).len() == v.len(),
        as_ints(v)[i] == v[i],
{
}

} // verus!
