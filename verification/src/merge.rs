//! The merge of a local document with remote documents.
//!
//! The sources of a merge stand in one order: the local document first,
//! then the remote documents as they were given. Proxies and rules are
//! joined in that order. A rule provider that several sources name is taken
//! from the last of them, a setting that several sources hold from the
//! first. A local document that is left out still gives its settings, but
//! no proxies, rules or rule providers.

use crate::document::{Document, DocumentView};
use crate::values::{add_missing_entries, append_values, extend_mapping};
use serde_yaml::Value;
use vstd::prelude::*;

verus! {

/// The documents as the contracts see them.
pub open spec fn views(documents: Seq<Document>) -> Seq<DocumentView> {
    Seq::new(documents.len(), |i: int| documents[i]@)
}

/// The rules of each source, source by source.
pub open spec fn rules_of(sources: Seq<DocumentView>) -> Seq<Seq<Value>> {
    Seq::new(sources.len(), |i: int| sources[i].rules)
}

/// The proxies of each source, source by source.
pub open spec fn proxies_of(sources: Seq<DocumentView>) -> Seq<Seq<Value>> {
    Seq::new(sources.len(), |i: int| sources[i].proxies)
}

/// The settings of all sources: each key with the value that the first
/// source that holds it gives.
pub open spec fn all_settings(sources: Seq<DocumentView>) -> Map<Seq<char>, Value>
    decreases sources.len(),
{
    if sources.len() == 0 {
        Map::empty()
    } else {
        sources.last().settings.union_prefer_right(all_settings(sources.drop_last()))
    }
}

/// The rule providers of all sources: each key with the value that the
/// last source that holds it gives.
pub open spec fn all_rule_providers(sources: Seq<DocumentView>) -> Map<Value, Value>
    decreases sources.len(),
{
    if sources.len() == 0 {
        Map::empty()
    } else {
        all_rule_providers(sources.drop_last()).union_prefer_right(sources.last().rule_providers)
    }
}

/// The sources that give proxies, rules and rule providers: the local
/// document, if it is included, and then the remote ones.
pub open spec fn effective_sources(
    local: DocumentView,
    remotes: Seq<DocumentView>,
    include_local: bool,
) -> Seq<DocumentView> {
    if include_local {
        seq![local] + remotes
    } else {
        remotes
    }
}

/// The sources that give settings: the local document and then the remote
/// ones.
pub open spec fn settings_sources(local: DocumentView, remotes: Seq<DocumentView>) -> Seq<
    DocumentView,
> {
    seq![local] + remotes
}

/// The merged document.
pub open spec fn merged(local: DocumentView, remotes: Seq<DocumentView>, include_local: bool)
    -> DocumentView {
    let sources = effective_sources(local, remotes, include_local);
    DocumentView {
        settings: all_settings(settings_sources(local, remotes)),
        proxies: proxies_of(sources).flatten(),
        rules: rules_of(sources).flatten(),
        rule_providers: all_rule_providers(sources),
    }
}

/// How many items the parts before part `s` hold together.
pub open spec fn length_before(parts: Seq<Seq<Value>>, s: int) -> int
    decreases s,
{
    if s <= 0 {
        0
    } else {
        length_before(parts, s - 1) + parts[s - 1].len()
    }
}

/// A local document with the settings of `local` and nothing else.
pub open spec fn settings_only(local: DocumentView) -> DocumentView {
    DocumentView {
        settings: local.settings,
        proxies: Seq::empty(),
        rules: Seq::empty(),
        rule_providers: Map::empty(),
    }
}

impl Document {
    /// Takes over the settings of `source` that this document does not
    /// hold yet.
    pub fn adopt_settings(&mut self, source: &Document)
        ensures
            final(self)@.settings == source@.settings.union_prefer_right(old(self)@.settings),
            final(self)@.proxies == old(self)@.proxies,
            final(self)@.rules == old(self)@.rules,
            final(self)@.rule_providers == old(self)@.rule_providers,
    {
        add_missing_entries(&mut self.settings, &source.settings);
    }

    /// Appends the proxies and the rules of `source` to those of this
    /// document, and stores its rule providers over those of this document.
    pub fn append(&mut self, source: &Document)
        ensures
            final(self)@.settings == old(self)@.settings,
            final(self)@.proxies == old(self)@.proxies + source@.proxies,
            final(self)@.rules == old(self)@.rules + source@.rules,
            final(self)@.rule_providers == old(self)@.rule_providers.union_prefer_right(
                source@.rule_providers,
            ),
    {
        append_values(&mut self.proxies, &source.proxies);
        append_values(&mut self.rules, &source.rules);
        extend_mapping(&mut self.rule_providers, &source.rule_providers);
    }
}

/// Merges the local document with the remote documents, in that order.
/// With `include_local` false the local document gives its settings only.
pub fn merge(local: &Document, remotes: &Vec<Document>, include_local: bool) -> (r: Document)
    ensures
        r@ == merged(local@, views(remotes@), include_local),
{
    let ghost all = views(remotes@);
    let mut out = Document::new();
    out.adopt_settings(local);
    if include_local {
        out.append(local);
    }
    proof {
        lemma_merged_local_alone(local@, include_local);
        assert(all.take(0) =~= Seq::<DocumentView>::empty());
    }
    let mut i: usize = 0;
    while i < remotes.len()
        invariant
            i <= remotes@.len(),
            all == views(remotes@),
            out@ == merged(local@, all.take(i as int), include_local),
        decreases remotes@.len() - i,
    {
        proof {
            lemma_merged_step(local@, all, i as int, include_local);
        }
        out.adopt_settings(&remotes[i]);
        out.append(&remotes[i]);
        i += 1;
    }
    assert(all.take(all.len() as int) =~= all);
    out
}

/// The merge of a local document with no remote one.
proof fn lemma_merged_local_alone(local: DocumentView, include_local: bool)
    ensures
        merged(local, Seq::empty(), include_local).settings == local.settings.union_prefer_right(
            Map::empty(),
        ),
        merged(local, Seq::empty(), include_local).proxies == (if include_local {
            Seq::<Value>::empty() + local.proxies
        } else {
            Seq::empty()
        }),
        merged(local, Seq::empty(), include_local).rules == (if include_local {
            Seq::<Value>::empty() + local.rules
        } else {
            Seq::empty()
        }),
        merged(local, Seq::empty(), include_local).rule_providers == (if include_local {
            Map::empty().union_prefer_right(local.rule_providers)
        } else {
            Map::empty()
        }),
{
    let none = Seq::<DocumentView>::empty();
    let one = seq![local];
    assert(seq![local] + none =~= one);
    assert(one.drop_last() =~= none);
    assert(all_settings(one) == local.settings.union_prefer_right(all_settings(none)));
    assert(all_rule_providers(one) == all_rule_providers(none).union_prefer_right(
        local.rule_providers,
    ));
    assert(rules_of(one) =~= seq![local.rules]);
    assert(proxies_of(one) =~= seq![local.proxies]);
    seq![local.rules].lemma_flatten_one_element();
    seq![local.proxies].lemma_flatten_one_element();
    assert(rules_of(none) =~= Seq::<Seq<Value>>::empty());
    assert(proxies_of(none) =~= Seq::<Seq<Value>>::empty());
    assert(Seq::<Value>::empty() + local.rules =~= local.rules);
    assert(Seq::<Value>::empty() + local.proxies =~= local.proxies);
}

/// The merge with one more remote document: what the merge without it
/// gives, and the new document after it.
proof fn lemma_merged_step(
    local: DocumentView,
    remotes: Seq<DocumentView>,
    i: int,
    include_local: bool,
)
    requires
        0 <= i < remotes.len(),
    ensures
        merged(local, remotes.take(i + 1), include_local).settings
            == remotes[i].settings.union_prefer_right(
            merged(local, remotes.take(i), include_local).settings,
        ),
        merged(local, remotes.take(i + 1), include_local).proxies == merged(
            local,
            remotes.take(i),
            include_local,
        ).proxies + remotes[i].proxies,
        merged(local, remotes.take(i + 1), include_local).rules == merged(
            local,
            remotes.take(i),
            include_local,
        ).rules + remotes[i].rules,
        merged(local, remotes.take(i + 1), include_local).rule_providers == merged(
            local,
            remotes.take(i),
            include_local,
        ).rule_providers.union_prefer_right(remotes[i].rule_providers),
{
    let before = remotes.take(i);
    let after = remotes.take(i + 1);
    assert(after =~= before.push(remotes[i]));
    let s0 = settings_sources(local, before);
    let s1 = settings_sources(local, after);
    assert(s1 =~= s0.push(remotes[i]));
    assert(s1.drop_last() =~= s0);
    let e0 = effective_sources(local, before, include_local);
    let e1 = effective_sources(local, after, include_local);
    assert(e1 =~= e0.push(remotes[i]));
    assert(e1.drop_last() =~= e0);
    assert(rules_of(e1) =~= rules_of(e0).push(remotes[i].rules));
    assert(proxies_of(e1) =~= proxies_of(e0).push(remotes[i].proxies));
    rules_of(e0).lemma_flatten_push(remotes[i].rules);
    proxies_of(e0).lemma_flatten_push(remotes[i].proxies);
}

/// Joined parts hold as many items as the parts hold together.
proof fn lemma_joined_length(parts: Seq<Seq<Value>>)
    ensures
        parts.flatten().len() == length_before(parts, parts.len() as int),
    decreases parts.len(),
{
    if parts.len() > 0 {
        let init = parts.drop_last();
        lemma_joined_length(init);
        lemma_length_before_prefix(parts, init, init.len() as int);
        assert(parts =~= init.push(parts.last()));
        init.lemma_flatten_push(parts.last());
    }
}

/// The length before part `s` depends on the parts before `s` only.
proof fn lemma_length_before_prefix(parts: Seq<Seq<Value>>, prefix: Seq<Seq<Value>>, s: int)
    requires
        0 <= s <= prefix.len() <= parts.len(),
        forall|i: int| 0 <= i < prefix.len() ==> prefix[i] == parts[i],
    ensures
        length_before(prefix, s) == length_before(parts, s),
    decreases s,
{
    if s > 0 {
        lemma_length_before_prefix(parts, prefix, s - 1);
    }
}

/// In joined parts, item `j` of part `s` stands after all items of the
/// parts before `s`, at place `j` among the items of its own part.
proof fn lemma_joined_item(parts: Seq<Seq<Value>>, s: int, j: int)
    requires
        0 <= s < parts.len(),
        0 <= j < parts[s].len(),
    ensures
        0 <= length_before(parts, s) + j < parts.flatten().len(),
        parts.flatten()[length_before(parts, s) + j] == parts[s][j],
    decreases parts.len(),
{
    let init = parts.drop_last();
    assert(parts =~= init.push(parts.last()));
    init.lemma_flatten_push(parts.last());
    lemma_joined_length(init);
    lemma_length_before_prefix(parts, init, init.len() as int);
    lemma_length_before_nonnegative(parts, s);
    if s < init.len() {
        lemma_joined_item(init, s, j);
        lemma_length_before_prefix(parts, init, s);
    }
}

/// A length is not negative.
proof fn lemma_length_before_nonnegative(parts: Seq<Seq<Value>>, s: int)
    ensures
        length_before(parts, s) >= 0,
    decreases s,
{
    if s > 0 {
        lemma_length_before_nonnegative(parts, s - 1);
    }
}

/// A setting of the merge is a setting of some source.
proof fn lemma_setting_has_source(sources: Seq<DocumentView>, key: Seq<char>)
    requires
        all_settings(sources).contains_key(key),
    ensures
        exists|s: int| 0 <= s < sources.len() && (#[trigger] sources[s]).settings.contains_key(key),
    decreases sources.len(),
{
    if sources.len() > 0 {
        let init = sources.drop_last();
        if sources.last().settings.contains_key(key) {
            assert(sources[sources.len() - 1].settings.contains_key(key));
        } else {
            lemma_setting_has_source(init, key);
            let s = choose|s: int|
                0 <= s < init.len() && (#[trigger] init[s]).settings.contains_key(key);
            assert(sources[s].settings.contains_key(key));
        }
    }
}

/// A rule provider of the merge is a rule provider of some source.
proof fn lemma_rule_provider_has_source(sources: Seq<DocumentView>, key: Value)
    requires
        all_rule_providers(sources).contains_key(key),
    ensures
        exists|s: int|
            0 <= s < sources.len() && (#[trigger] sources[s]).rule_providers.contains_key(key),
    decreases sources.len(),
{
    if sources.len() > 0 {
        let init = sources.drop_last();
        if sources.last().rule_providers.contains_key(key) {
            assert(sources[sources.len() - 1].rule_providers.contains_key(key));
        } else {
            lemma_rule_provider_has_source(init, key);
            let s = choose|s: int|
                0 <= s < init.len() && (#[trigger] init[s]).rule_providers.contains_key(key);
            assert(sources[s].rule_providers.contains_key(key));
        }
    }
}

/// Among sources, the first that holds a setting gives its value.
proof fn lemma_first_setting_wins(sources: Seq<DocumentView>, key: Seq<char>, s: int)
    requires
        0 <= s < sources.len(),
        sources[s].settings.contains_key(key),
        forall|t: int| 0 <= t < s ==> !(#[trigger] sources[t]).settings.contains_key(key),
    ensures
        all_settings(sources).contains_key(key),
        all_settings(sources)[key] == sources[s].settings[key],
    decreases sources.len(),
{
    let init = sources.drop_last();
    if s < init.len() {
        assert(init[s] == sources[s]);
        assert forall|t: int| 0 <= t < s implies !(#[trigger] init[t]).settings.contains_key(
            key,
        ) by {
            assert(init[t] == sources[t]);
        }
        lemma_first_setting_wins(init, key, s);
    } else {
        if all_settings(init).contains_key(key) {
            lemma_setting_has_source(init, key);
            let t = choose|t: int|
                0 <= t < init.len() && (#[trigger] init[t]).settings.contains_key(key);
            assert(init[t] == sources[t]);
        }
    }
}

/// Among sources, the last that holds a rule provider gives its value.
proof fn lemma_last_rule_provider_wins(sources: Seq<DocumentView>, key: Value, s: int)
    requires
        0 <= s < sources.len(),
        sources[s].rule_providers.contains_key(key),
        forall|t: int|
            s < t < sources.len() ==> !(#[trigger] sources[t]).rule_providers.contains_key(key),
    ensures
        all_rule_providers(sources).contains_key(key),
        all_rule_providers(sources)[key] == sources[s].rule_providers[key],
    decreases sources.len(),
{
    let init = sources.drop_last();
    if s < init.len() {
        assert(init[s] == sources[s]);
        assert forall|t: int| s < t < init.len() implies !(
        #[trigger] init[t]).rule_providers.contains_key(key) by {
            assert(init[t] == sources[t]);
        }
        lemma_last_rule_provider_wins(init, key, s);
        assert(!sources[sources.len() - 1].rule_providers.contains_key(key));
    }
}

/// A first source gives its settings before all that the later ones give.
proof fn lemma_settings_of_first(first: DocumentView, rest: Seq<DocumentView>)
    ensures
        all_settings(seq![first] + rest) == all_settings(rest).union_prefer_right(first.settings),
    decreases rest.len(),
{
    let sources = seq![first] + rest;
    if rest.len() == 0 {
        assert(sources.drop_last() =~= rest);
        assert(sources.last() == first);
        assert(all_settings(sources) =~= all_settings(rest).union_prefer_right(first.settings));
    } else {
        assert(sources.drop_last() =~= seq![first] + rest.drop_last());
        lemma_settings_of_first(first, rest.drop_last());
        assert(all_settings(sources) =~= all_settings(rest).union_prefer_right(first.settings));
    }
}

/// A first source gives its rule providers under all that the later ones
/// give.
proof fn lemma_rule_providers_of_first(first: DocumentView, rest: Seq<DocumentView>)
    ensures
        all_rule_providers(seq![first] + rest) == first.rule_providers.union_prefer_right(
            all_rule_providers(rest),
        ),
    decreases rest.len(),
{
    let sources = seq![first] + rest;
    if rest.len() == 0 {
        assert(sources.drop_last() =~= rest);
        assert(sources.last() == first);
        assert(all_rule_providers(sources) =~= first.rule_providers.union_prefer_right(
            all_rule_providers(rest),
        ));
    } else {
        assert(sources.drop_last() =~= seq![first] + rest.drop_last());
        lemma_rule_providers_of_first(first, rest.drop_last());
        assert(all_rule_providers(sources) =~= first.rule_providers.union_prefer_right(
            all_rule_providers(rest),
        ));
    }
}

/// The rules of a merge are the rules of its sources, one source after
/// another in the order of the sources, each source's rules in their own
/// order: none is moved, left out or added.
pub proof fn law_rules_keep_source_order(
    local: DocumentView,
    remotes: Seq<DocumentView>,
    include_local: bool,
    s: int,
    j: int,
)
    requires
        0 <= s < effective_sources(local, remotes, include_local).len(),
        0 <= j < effective_sources(local, remotes, include_local)[s].rules.len(),
    ensures
        ({
            let sources = effective_sources(local, remotes, include_local);
            let out = merged(local, remotes, include_local).rules;
            let at = length_before(rules_of(sources), s) + j;
            &&& out.len() == length_before(rules_of(sources), sources.len() as int)
            &&& 0 <= at < out.len()
            &&& out[at] == sources[s].rules[j]
        }),
{
    let sources = effective_sources(local, remotes, include_local);
    lemma_joined_length(rules_of(sources));
    lemma_joined_item(rules_of(sources), s, j);
}

/// The proxies of a merge are the proxies of its sources, one source after
/// another in the order of the sources, each source's proxies in their own
/// order: none is moved, left out or added.
pub proof fn law_proxies_keep_source_order(
    local: DocumentView,
    remotes: Seq<DocumentView>,
    include_local: bool,
    s: int,
    j: int,
)
    requires
        0 <= s < effective_sources(local, remotes, include_local).len(),
        0 <= j < effective_sources(local, remotes, include_local)[s].proxies.len(),
    ensures
        ({
            let sources = effective_sources(local, remotes, include_local);
            let out = merged(local, remotes, include_local).proxies;
            let at = length_before(proxies_of(sources), s) + j;
            &&& out.len() == length_before(proxies_of(sources), sources.len() as int)
            &&& 0 <= at < out.len()
            &&& out[at] == sources[s].proxies[j]
        }),
{
    let sources = effective_sources(local, remotes, include_local);
    lemma_joined_length(proxies_of(sources));
    lemma_joined_item(proxies_of(sources), s, j);
}

/// A setting that several sources hold has in the merge the value of the
/// first of them, whatever the later ones hold. The sources of settings
/// are the local document and then the remote ones, also where the local
/// document is left out.
pub proof fn law_first_setting_wins(
    local: DocumentView,
    remotes: Seq<DocumentView>,
    include_local: bool,
    key: Seq<char>,
    s: int,
)
    requires
        0 <= s < settings_sources(local, remotes).len(),
        settings_sources(local, remotes)[s].settings.contains_key(key),
        forall|t: int|
            0 <= t < s ==> !(#[trigger] settings_sources(local, remotes)[t]).settings.contains_key(
                key,
            ),
    ensures
        merged(local, remotes, include_local).settings.contains_key(key),
        merged(local, remotes, include_local).settings[key] == settings_sources(
            local,
            remotes,
        )[s].settings[key],
{
    lemma_first_setting_wins(settings_sources(local, remotes), key, s);
}

/// A rule provider that several sources hold has in the merge the value of
/// the last of them, whatever the earlier ones hold.
pub proof fn law_last_rule_provider_wins(
    local: DocumentView,
    remotes: Seq<DocumentView>,
    include_local: bool,
    key: Value,
    s: int,
)
    requires
        0 <= s < effective_sources(local, remotes, include_local).len(),
        effective_sources(local, remotes, include_local)[s].rule_providers.contains_key(key),
        forall|t: int|
            s < t < effective_sources(local, remotes, include_local).len() ==> !(
            #[trigger] effective_sources(local, remotes, include_local)[t]).rule_providers.contains_key(
                key,
            ),
    ensures
        merged(local, remotes, include_local).rule_providers.contains_key(key),
        merged(local, remotes, include_local).rule_providers[key] == effective_sources(
            local,
            remotes,
            include_local,
        )[s].rule_providers[key],
{
    lemma_last_rule_provider_wins(effective_sources(local, remotes, include_local), key, s);
}

/// The merge holds no setting that no source holds.
pub proof fn law_settings_come_from_sources(
    local: DocumentView,
    remotes: Seq<DocumentView>,
    include_local: bool,
    key: Seq<char>,
)
    requires
        merged(local, remotes, include_local).settings.contains_key(key),
    ensures
        exists|s: int|
            0 <= s < settings_sources(local, remotes).len() && (#[trigger] settings_sources(
                local,
                remotes,
            )[s]).settings.contains_key(key),
{
    lemma_setting_has_source(settings_sources(local, remotes), key);
}

/// The merge holds no rule provider that no source holds.
pub proof fn law_rule_providers_come_from_sources(
    local: DocumentView,
    remotes: Seq<DocumentView>,
    include_local: bool,
    key: Value,
)
    requires
        merged(local, remotes, include_local).rule_providers.contains_key(key),
    ensures
        exists|s: int|
            0 <= s < effective_sources(local, remotes, include_local).len() && (
            #[trigger] effective_sources(local, remotes, include_local)[s]).rule_providers.contains_key(
                key,
            ),
{
    lemma_rule_provider_has_source(effective_sources(local, remotes, include_local), key);
}

/// The settings of a merge are the same whether the local document is
/// included or left out.
pub proof fn law_settings_ignore_exclusion(local: DocumentView, remotes: Seq<DocumentView>)
    ensures
        merged(local, remotes, true).settings == merged(local, remotes, false).settings,
{
}

/// Merging an included local document with no remote document gives the
/// local document.
pub proof fn law_local_alone_is_unchanged(local: DocumentView)
    ensures
        merged(local, Seq::empty(), true) == local,
{
    lemma_merged_local_alone(local, true);
    let out = merged(local, Seq::empty(), true);
    assert(out.settings =~= local.settings);
    assert(out.proxies =~= local.proxies);
    assert(out.rules =~= local.rules);
    assert(out.rule_providers =~= local.rule_providers);
    assert(out =~= local);
}

/// Leaving the local document out is merging a local document that holds
/// the same settings and nothing else: its proxies, rules and rule
/// providers do not reach the merge, and each of its settings does, with
/// the local value.
pub proof fn law_excluded_local_gives_settings_only(
    local: DocumentView,
    remotes: Seq<DocumentView>,
)
    ensures
        merged(local, remotes, false) == merged(settings_only(local), remotes, true),
        merged(local, remotes, false).proxies == proxies_of(remotes).flatten(),
        merged(local, remotes, false).rules == rules_of(remotes).flatten(),
        merged(local, remotes, false).rule_providers == all_rule_providers(remotes),
        forall|key: Seq<char>| #[trigger]
            local.settings.contains_key(key) ==> merged(local, remotes, false).settings.contains_key(
                key,
            ) && merged(local, remotes, false).settings[key] == local.settings[key],
{
    let bare = settings_only(local);
    let a = merged(local, remotes, false);
    let b = merged(bare, remotes, true);
    lemma_settings_of_first(local, remotes);
    lemma_settings_of_first(bare, remotes);
    lemma_rule_providers_of_first(bare, remotes);
    assert(b.rule_providers =~= a.rule_providers);
    let with_bare = seq![bare] + remotes;
    assert(rules_of(with_bare).drop_first() =~= rules_of(remotes));
    assert(proxies_of(with_bare).drop_first() =~= proxies_of(remotes));
    assert(b.rules =~= a.rules);
    assert(b.proxies =~= a.proxies);
    assert(a =~= b);
}

} // verus!
