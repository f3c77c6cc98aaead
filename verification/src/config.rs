//! The settings file, as the logic reads it: the provider stack (the order is
//! the fallback priority), the instruction, the hotkey and a few numbers. Each
//! settings command is a function from the settings before to the settings
//! after; reading and writing the file is left to the caller.

use vstd::prelude::*;
use crate::corrector::{
    catalog, effective_instruction, find_in, find_provider, https_ok, lemma_default_instruction_trimmed,
    system_prompt_spec,
    ProviderConfig, DEFAULT_INSTRUCTION, DEFAULT_PROVIDER,
};
use crate::text::{
    concat, decimal, is_blank, lemma_parse_decimal, lemma_trim_idempotent, lemma_trim_is_trimmed,
    parse_u64, parse_u64_chars, str_eq, to_chars, trim, trim_str, u64_to_decimal, has_prefix,
};

verus! {

// ---------------------------------------------------------------------------
// The model
// ---------------------------------------------------------------------------

/// One card of the provider stack. `id` is `None` when the settings file holds
/// no string there; such an entry is never matched by id.
#[derive(Clone, Debug)]
pub struct ProviderEntry {
    pub id: Option<String>,
    pub label: String,
    pub url: String,
    pub model: String,
    pub key_env: String,
}

pub struct EntryView {
    pub id: Option<Seq<char>>,
    pub label: Seq<char>,
    pub url: Seq<char>,
    pub model: Seq<char>,
    pub key_env: Seq<char>,
}

pub open spec fn opt_view(o: Option<String>) -> Option<Seq<char>> {
    match o {
        Some(s) => Some(s@),
        None => None,
    }
}

impl View for ProviderEntry {
    type V = EntryView;

    open spec fn view(&self) -> EntryView {
        EntryView {
            id: opt_view(self.id),
            label: self.label@,
            url: self.url@,
            model: self.model@,
            key_env: self.key_env@,
        }
    }
}

/// What the logic reads of the settings file. `providers` is `None` when the
/// file holds no array there.
#[derive(Clone, Debug)]
pub struct Config {
    pub providers: Option<Vec<ProviderEntry>>,
    pub llm_provider: Option<String>,
    pub prompt: Option<String>,
    pub history_days: Option<i64>,
    pub shortcut: Option<String>,
    pub fallback_threshold: Option<u64>,
    pub fallback_cooldown_mins: Option<u64>,
}

pub struct ConfigView {
    pub providers: Option<Seq<EntryView>>,
    pub llm_provider: Option<Seq<char>>,
    pub prompt: Option<Seq<char>>,
    pub history_days: Option<i64>,
    pub shortcut: Option<Seq<char>>,
    pub fallback_threshold: Option<u64>,
    pub fallback_cooldown_mins: Option<u64>,
}

pub open spec fn stack_view(s: Seq<ProviderEntry>) -> Seq<EntryView> {
    s.map_values(|e: ProviderEntry| e@)
}

impl View for Config {
    type V = ConfigView;

    open spec fn view(&self) -> ConfigView {
        ConfigView {
            providers: match self.providers {
                Some(v) => Some(stack_view(v@)),
                None => None,
            },
            llm_provider: opt_view(self.llm_provider),
            prompt: opt_view(self.prompt),
            history_days: self.history_days,
            shortcut: opt_view(self.shortcut),
            fallback_threshold: self.fallback_threshold,
            fallback_cooldown_mins: self.fallback_cooldown_mins,
        }
    }
}

/// The stack as the fallback walk sees it: no array is no entries.
pub open spec fn stack_of(c: ConfigView) -> Seq<EntryView> {
    match c.providers {
        Some(s) => s,
        None => seq![],
    }
}

pub open spec fn id_matches(e: EntryView, id: Seq<char>) -> bool {
    e.id == Some(id)
}

fn copy_opt(o: &Option<String>) -> (r: Option<String>)
    ensures
        opt_view(r) == opt_view(*o),
{
    match o {
        Some(s) => Some(s.clone()),
        None => None,
    }
}

/// A copy of an entry, field for field.
pub fn copy_entry(e: &ProviderEntry) -> (r: ProviderEntry)
    ensures
        r@ == e@,
{
    ProviderEntry {
        id: copy_opt(&e.id),
        label: e.label.clone(),
        url: e.url.clone(),
        model: e.model.clone(),
        key_env: e.key_env.clone(),
    }
}

fn copy_stack(v: &Vec<ProviderEntry>) -> (r: Vec<ProviderEntry>)
    ensures
        stack_view(r@) == stack_view(v@),
{
    let mut r: Vec<ProviderEntry> = Vec::new();
    let mut i: usize = 0;
    while i < v.len()
        invariant
            i <= v@.len(),
            r@.len() == i,
            stack_view(r@) == stack_view(v@).take(i as int),
        decreases v@.len() - i,
    {
        let ghost old_r = r@;
        let c = copy_entry(&v[i]);
        r.push(c);
        assert forall|k: int| 0 <= k < i + 1 implies #[trigger] stack_view(r@)[k] == stack_view(
            v@,
        ).take(i + 1)[k] by {
            if k < i {
                assert(r@[k] == old_r[k]);
                assert(stack_view(old_r)[k] == stack_view(v@).take(i as int)[k]);
            }
        }
        assert(stack_view(r@) =~= stack_view(v@).take(i + 1));
        i = i + 1;
    }
    assert(stack_view(v@).take(v@.len() as int) =~= stack_view(v@));
    r
}

fn copy_stack_opt(o: &Option<Vec<ProviderEntry>>) -> (r: Option<Vec<ProviderEntry>>)
    ensures
        match (r, *o) {
            (Some(a), Some(b)) => stack_view(a@) == stack_view(b@),
            (None, None) => true,
            _ => false,
        },
{
    match o {
        Some(v) => Some(copy_stack(v)),
        None => None,
    }
}

/// A copy of the settings, field for field.
pub fn copy_config(c: &Config) -> (r: Config)
    ensures
        r@ == c@,
{
    Config {
        providers: copy_stack_opt(&c.providers),
        llm_provider: copy_opt(&c.llm_provider),
        prompt: copy_opt(&c.prompt),
        history_days: c.history_days,
        shortcut: copy_opt(&c.shortcut),
        fallback_threshold: c.fallback_threshold,
        fallback_cooldown_mins: c.fallback_cooldown_mins,
    }
}

// ---------------------------------------------------------------------------
// Endpoints
// ---------------------------------------------------------------------------

pub const HTTPS_REQUIRED: &'static str = "endpoint must start with https:// — your key travels with every request";

/// An endpoint is where the API key goes on every request. Over plain http
/// the key crosses the network in the clear, so a non-https endpoint is
/// refused when it is typed. A blank field is fine: clearing it is not an
/// attack.
pub fn require_https(url: &str) -> (r: Result<(), String>)
    ensures
        r is Ok <==> https_ok(url@),
        r matches Err(e) ==> e@ == HTTPS_REQUIRED@,
{
    let u = trim_str(url);
    let v = to_chars(u.as_str());
    let p = to_chars("https://");
    if v.len() == 0 || has_prefix(&v, &p) {
        return Ok(());
    }
    Err(HTTPS_REQUIRED.to_owned())
}

// ---------------------------------------------------------------------------
// Ids and seeding
// ---------------------------------------------------------------------------

/// The id a stack entry gets: `p` and a number.
pub open spec fn pid(n: nat) -> Seq<char> {
    "p"@ + decimal(n)
}

/// The number in an id of the form `p<N>`, `N` read as `u64::from_str` reads.
pub open spec fn id_number(e: EntryView) -> Option<u64> {
    match e.id {
        Some(s) => if s.len() > 0 && s[0] == 'p' {
            parse_u64(s.drop_first())
        } else {
            None
        },
        None => None,
    }
}

/// The largest `p<N>` number in use, 0 for none.
pub open spec fn max_id(st: Seq<EntryView>) -> nat
    decreases st.len(),
{
    if st.len() == 0 {
        0
    } else {
        let rest = max_id(st.drop_last());
        match id_number(st.last()) {
            Some(n) => if n > rest {
                n as nat
            } else {
                rest
            },
            None => rest,
        }
    }
}

/// The id `next_provider_id` hands out: one past the largest in use.
pub open spec fn next_id_spec(st: Seq<EntryView>) -> Seq<char> {
    pid(max_id(st) + 1)
}

/// `u64::MAX` can't be followed: the id after it does not exist.
pub open spec fn ids_have_room(c: ConfigView) -> bool {
    max_id(stack_of(c)) < u64::MAX
}

fn number_of(id: &Option<String>) -> (n: Option<u64>)
    ensures
        n == id_number(EntryView { id: opt_view(*id), label: seq![], url: seq![], model: seq![], key_env: seq![] }),
{
    match id {
        Some(s) => {
            let v = to_chars(s.as_str());
            if v.len() > 0 && v[0] == 'p' {
                assert(v@.skip(1) =~= v@.drop_first());
                parse_u64_chars(&v, 1)
            } else {
                None
            }
        },
        None => None,
    }
}

/// The largest `p<N>` number in use in the stack, 0 for none.
pub fn largest_id_number(cfg: &Config) -> (n: u64)
    ensures
        n as nat == max_id(stack_of(cfg@)),
{
    let mut max: u64 = 0;
    match &cfg.providers {
        Some(v) => {
            let ghost st = stack_view(v@);
            let mut i: usize = 0;
            assert(st.take(0) =~= Seq::<EntryView>::empty());
            while i < v.len()
                invariant
                    i <= v@.len(),
                    st == stack_view(v@),
                    max as nat == max_id(st.take(i as int)),
                decreases v@.len() - i,
            {
                let n = number_of(&v[i].id);
                proof {
                    assert(st.take(i + 1).drop_last() =~= st.take(i as int));
                    assert(st.take(i + 1).last() == st[i as int]);
                    assert(id_number(st[i as int]) == n);
                }
                match n {
                    Some(k) => {
                        if k > max {
                            max = k;
                        }
                    },
                    None => {},
                }
                i = i + 1;
            }
            assert(st.take(v@.len() as int) =~= st);
        },
        None => {},
    }
    max
}

/// Next free id in the stack: `p` and one past the largest number in use.
/// The largest must not already be `u64::MAX`.
pub fn next_provider_id(cfg: &Config) -> (id: String)
    requires
        ids_have_room(cfg@),
    ensures
        id@ == next_id_spec(stack_of(cfg@)),
{
    let max: u64 = largest_id_number(cfg);
    concat("p", u64_to_decimal(max + 1).as_str())
}

/// `max_id` bounds every `p<N>` number in the stack.
pub proof fn lemma_max_id_bound(st: Seq<EntryView>, i: int)
    requires
        0 <= i < st.len(),
    ensures
        id_number(st[i]) matches Some(n) ==> n <= max_id(st),
    decreases st.len(),
{
    if i < st.len() - 1 {
        lemma_max_id_bound(st.drop_last(), i);
        assert(st.drop_last()[i] == st[i]);
    }
}

/// A new id never collides with one already in the stack.
pub proof fn lemma_next_id_is_fresh(c: ConfigView)
    requires
        ids_have_room(c),
    ensures
        forall|i: int|
            0 <= i < stack_of(c).len() ==> (#[trigger] stack_of(c)[i]).id != Some(
                next_id_spec(stack_of(c)),
            ),
{
    let st = stack_of(c);
    let m = max_id(st) + 1;
    reveal_strlit("p");
    lemma_parse_decimal(m as u64);
    let fresh = next_id_spec(st);
    assert(fresh.drop_first() =~= decimal(m));
    assert(fresh[0] == 'p');
    assert forall|i: int| 0 <= i < st.len() implies (#[trigger] st[i]).id != Some(fresh) by {
        lemma_max_id_bound(st, i);
        if st[i].id == Some(fresh) {
            assert(id_number(st[i]) == Some(m as u64));
        }
    }
}

/// The card made from a catalog entry.
pub open spec fn entry_spec(p: ProviderConfig, id: Seq<char>) -> EntryView {
    EntryView {
        id: Some(id),
        label: p.label@,
        url: p.base_url@,
        model: p.default_model@,
        key_env: p.env_var@,
    }
}

fn entry_from(p: ProviderConfig, id: String) -> (e: ProviderEntry)
    ensures
        e@ == entry_spec(p, id@),
{
    ProviderEntry {
        id: Some(id),
        label: p.label.to_owned(),
        url: p.base_url.to_owned(),
        model: p.default_model.to_owned(),
        key_env: p.env_var.to_owned(),
    }
}

pub open spec fn names_view(names: Seq<&str>) -> Seq<Seq<char>> {
    names.map_values(|n: &str| n@)
}

/// The catalog entries the names refer to, in order; unknown names dropped.
pub open spec fn known_providers(names: Seq<Seq<char>>) -> Seq<ProviderConfig>
    decreases names.len(),
{
    if names.len() == 0 {
        seq![]
    } else {
        let rest = known_providers(names.drop_last());
        match find_in(catalog(), names.last()) {
            Some(p) => rest.push(p),
            None => rest,
        }
    }
}

/// A stack built from catalog names: one card per known name, ids `p1`, `p2`, …
pub open spec fn seed_spec(names: Seq<Seq<char>>) -> Seq<EntryView> {
    let ps = known_providers(names);
    Seq::new(ps.len(), |j: int| entry_spec(ps[j], pid((j + 1) as nat)))
}

/// Build a stack out of catalog names, in order. Unknown names are dropped
/// rather than faked — a typo here must not silently produce a dead entry.
pub fn seed_stack(names: &[&str]) -> (st: Vec<ProviderEntry>)
    ensures
        stack_view(st@) == seed_spec(names_view(names@)),
{
    let ghost ns = names_view(names@);
    let mut out: Vec<ProviderEntry> = Vec::new();
    let mut i: usize = 0;
    assert(ns.take(0) =~= Seq::<Seq<char>>::empty());
    assert(stack_view(out@) =~= seed_spec(ns.take(0)));
    while i < names.len()
        invariant
            i <= names@.len(),
            ns == names_view(names@),
            out@.len() <= i,
            out@.len() == known_providers(ns.take(i as int)).len(),
            stack_view(out@) == seed_spec(ns.take(i as int)),
        decreases names@.len() - i,
    {
        let ghost before = out@;
        let ghost kp = known_providers(ns.take(i as int));
        assert(ns.take(i + 1).drop_last() =~= ns.take(i as int));
        assert(ns.take(i + 1).last() == names@[i as int]@);
        match find_provider(names[i]) {
            Some(p) => {
                let n: u64 = out.len() as u64 + 1;
                let id = concat("p", u64_to_decimal(n).as_str());
                let e = entry_from(p, id);
                out.push(e);
                proof {
                    let kp2 = known_providers(ns.take(i + 1));
                    assert(kp2 == kp.push(p));
                    assert forall|j: int| 0 <= j < out@.len() implies #[trigger] stack_view(out@)[j]
                        == seed_spec(ns.take(i + 1))[j] by {
                        if j < before.len() {
                            assert(out@[j] == before[j]);
                            assert(stack_view(before)[j] == seed_spec(ns.take(i as int))[j]);
                        }
                    }
                    assert(stack_view(out@) =~= seed_spec(ns.take(i + 1)));
                }
            },
            None => {
                assert(seed_spec(ns.take(i + 1)) =~= seed_spec(ns.take(i as int)));
            },
        }
        i = i + 1;
    }
    assert(ns.take(names@.len() as int) =~= ns);
    out
}

// ---------------------------------------------------------------------------
// Migration
// ---------------------------------------------------------------------------

/// The old single provider, kept as the backup behind Groq when it is a
/// catalog name other than Groq; the default provider otherwise.
pub open spec fn backup_for(legacy: Option<Seq<char>>) -> Seq<char> {
    let l = match legacy {
        Some(s) => s,
        None => DEFAULT_PROVIDER@,
    };
    if find_in(catalog(), l) is Some && l != "groq"@ {
        l
    } else {
        DEFAULT_PROVIDER@
    }
}

/// A settings file with no stack gets one — Groq first, the old provider
/// behind it — and keeps everything else; one with a stack is left alone.
pub open spec fn migrated_spec(c: ConfigView) -> Option<ConfigView> {
    if c.providers is Some {
        None
    } else {
        Some(
            ConfigView {
                providers: Some(seed_spec(seq!["groq"@, backup_for(c.llm_provider)])),
                ..c
            },
        )
    }
}

/// Bring a settings file from the single-provider era up to the provider
/// stack, or seed a fresh one. `None`: it already has a stack, leave it alone.
pub fn migrated_config(cfg: &Config) -> (r: Option<Config>)
    ensures
        match r {
            Some(d) => migrated_spec(cfg@) == Some(d@),
            None => migrated_spec(cfg@) is None,
        },
{
    if cfg.providers.is_some() {
        return None;
    }
    let legacy: &str = match &cfg.llm_provider {
        Some(s) => s.as_str(),
        None => DEFAULT_PROVIDER,
    };
    let backup: &str = if find_provider(legacy).is_some() && !str_eq(legacy, "groq") {
        legacy
    } else {
        DEFAULT_PROVIDER
    };
    let names = vec!["groq", backup];
    let st = seed_stack(names.as_slice());
    assert(names_view(names@) =~= seq!["groq"@, backup_for(cfg@.llm_provider)]);
    let mut out = copy_config(cfg);
    out.providers = Some(st);
    Some(out)
}

/// Migrating twice changes nothing the second time: what the first migration
/// writes has a stack, and a settings file with a stack is left alone.
pub proof fn lemma_migration_idempotent(c: ConfigView)
    ensures
        migrated_spec(c) matches Some(d) ==> migrated_spec(d) is None,
{
}

/// The seeded stack is exactly two cards: Groq as `p1` in front, and as `p2`
/// the old provider when it is a catalog name other than Groq, the default
/// provider otherwise. Nothing else in the file changes.
pub proof fn lemma_migrated_stack(c: ConfigView)
    requires
        c.providers is None,
    ensures
        migrated_spec(c) is Some,
        find_in(catalog(), backup_for(c.llm_provider)) is Some,
        backup_for(c.llm_provider) != "groq"@,
        migrated_spec(c).unwrap().providers == Some(
            seq![
                entry_spec(crate::corrector::groq_spec(), pid(1)),
                entry_spec(find_in(catalog(), backup_for(c.llm_provider)).unwrap(), pid(2)),
            ],
        ),
        migrated_spec(c).unwrap() == (ConfigView {
            providers: migrated_spec(c).unwrap().providers,
            ..c
        }),
{
    crate::corrector::lemma_catalog_well_formed();
    let b = backup_for(c.llm_provider);
    let names = seq!["groq"@, b];
    let groq = crate::corrector::groq_spec();
    assert(catalog()[1] == groq);
    assert(catalog()[1].name@ == "groq"@);
    assert(find_in(catalog(), "groq"@) == Some(groq));
    assert(catalog()[0] == crate::corrector::routerai_spec());
    assert(find_in(catalog(), DEFAULT_PROVIDER@) is Some);
    let bp = find_in(catalog(), b).unwrap();
    assert(names.drop_last() =~= seq!["groq"@]);
    assert(names.drop_last().drop_last() =~= Seq::<Seq<char>>::empty());
    assert(seq!["groq"@].drop_last() =~= Seq::<Seq<char>>::empty());
    assert(seq!["groq"@].last() == "groq"@);
    assert(known_providers(Seq::<Seq<char>>::empty()) == Seq::<ProviderConfig>::empty());
    assert(known_providers(seq!["groq"@]) =~= seq![groq]);
    assert(known_providers(names) == seq![groq, bp]);
    assert(seed_spec(names) =~= seq![entry_spec(groq, pid(1)), entry_spec(bp, pid(2))]);
    reveal_strlit("groq");
    reveal_strlit("routerai");
    assert(DEFAULT_PROVIDER@ != "groq"@) by {
        assert(DEFAULT_PROVIDER@.len() != "groq"@.len());
    }
}


// ---------------------------------------------------------------------------
// Editing the stack
// ---------------------------------------------------------------------------

pub const NO_PROVIDERS: &'static str = "no providers configured";

pub const UNKNOWN_ENTRY: &'static str = "unknown provider entry";

/// The settings with another stack.
pub open spec fn with_stack(c: ConfigView, st: Option<Seq<EntryView>>) -> ConfigView {
    ConfigView { providers: st, ..c }
}

/// The card `add_provider` appends for `provider` under `id`: a catalog entry
/// prefilled, or "custom" with blank endpoint and model and a key slot of its
/// own. `None` for a name that is neither.
pub open spec fn new_entry_spec(provider: Seq<char>, id: Seq<char>) -> Option<EntryView> {
    if provider == "custom"@ {
        Some(
            EntryView {
                id: Some(id),
                label: "custom"@,
                url: seq![],
                model: seq![],
                key_env: "QUILL_KEY_"@ + id,
            },
        )
    } else {
        match find_in(catalog(), provider) {
            Some(p) => Some(entry_spec(p, id)),
            None => None,
        }
    }
}

pub open spec fn add_spec(c: ConfigView, provider: Seq<char>) -> Result<ConfigView, Seq<char>> {
    match new_entry_spec(provider, next_id_spec(stack_of(c))) {
        Some(e) => Ok(with_stack(c, Some(stack_of(c).push(e)))),
        None => Err("unknown provider: "@ + provider),
    }
}

/// A successful add appends: the cards already in the stack stay where they
/// were, and exactly one card, carrying the fresh id, comes after them. The
/// rest of the settings is untouched.
pub proof fn lemma_add_appends(c: ConfigView, provider: Seq<char>)
    requires
        add_spec(c, provider) is Ok,
    ensures
        add_spec(c, provider)->Ok_0.providers is Some,
        stack_of(add_spec(c, provider)->Ok_0).len() == stack_of(c).len() + 1,
        stack_of(add_spec(c, provider)->Ok_0).take(stack_of(c).len() as int) == stack_of(c),
        stack_of(add_spec(c, provider)->Ok_0).last().id == Some(next_id_spec(stack_of(c))),
        (ConfigView { providers: c.providers, ..add_spec(c, provider)->Ok_0 }) == c,
{
    let st = stack_of(c);
    let st2 = stack_of(add_spec(c, provider)->Ok_0);
    assert(st2.take(st.len() as int) =~= st);
}

/// Append a provider to the stack: a catalog name (prefilled) or "custom".
pub fn add_provider(cfg: &mut Config, provider: &str) -> (r: Result<(), String>)
    requires
        ids_have_room(old(cfg)@),
    ensures
        match r {
            Ok(()) => add_spec(old(cfg)@, provider@) == Ok::<ConfigView, Seq<char>>(final(cfg)@),
            Err(e) => add_spec(old(cfg)@, provider@) == Err::<ConfigView, Seq<char>>(e@)
                && final(cfg)@ == old(cfg)@,
        },
        r is Ok ==> stack_of(final(cfg)@).len() == stack_of(old(cfg)@).len() + 1
            && stack_of(final(cfg)@).take(stack_of(old(cfg)@).len() as int) == stack_of(old(cfg)@)
            && stack_of(final(cfg)@).last().id == Some(next_id_spec(stack_of(old(cfg)@))),
{
    let id = next_provider_id(cfg);
    let entry = if str_eq(provider, "custom") {
        let key_env = concat("QUILL_KEY_", id.as_str());
        ProviderEntry {
            id: Some(id),
            label: "custom".to_owned(),
            url: String::new(),
            model: String::new(),
            key_env,
        }
    } else {
        match find_provider(provider) {
            Some(p) => entry_from(p, id),
            None => {
                return Err(concat("unknown provider: ", provider));
            },
        }
    };
    let ghost before = stack_of(cfg@);
    let mut st = match cfg.providers.take() {
        Some(v) => v,
        None => Vec::new(),
    };
    assert(stack_view(st@) == before);
    st.push(entry);
    assert(stack_view(st@) =~= before.push(entry@));
    cfg.providers = Some(st);
    proof {
        lemma_add_appends(old(cfg)@, provider@);
    }
    Ok(())
}

/// The stack less every card whose id is `id`.
pub open spec fn without_id(st: Seq<EntryView>, id: Seq<char>) -> Seq<EntryView>
    decreases st.len(),
{
    if st.len() == 0 {
        seq![]
    } else {
        let rest = without_id(st.drop_last(), id);
        if id_matches(st.last(), id) {
            rest
        } else {
            rest.push(st.last())
        }
    }
}

/// After a removal no card carries the id, and every card that does not
/// carry it is still there.
pub proof fn lemma_removed_id_is_gone(st: Seq<EntryView>, id: Seq<char>)
    ensures
        forall|i: int|
            0 <= i < without_id(st, id).len() ==> !id_matches(#[trigger] without_id(st, id)[i], id),
        forall|i: int|
            0 <= i < st.len() && !id_matches(#[trigger] st[i], id) ==> without_id(st, id).contains(
                st[i],
            ),
    decreases st.len(),
{
    if st.len() > 0 {
        let rest = without_id(st.drop_last(), id);
        lemma_removed_id_is_gone(st.drop_last(), id);
        assert forall|i: int|
            0 <= i < without_id(st, id).len() implies !id_matches(
            #[trigger] without_id(st, id)[i],
            id,
        ) by {
            if i < rest.len() {
                assert(without_id(st, id)[i] == rest[i]);
            }
        }
        assert forall|i: int|
            0 <= i < st.len() && !id_matches(#[trigger] st[i], id) implies without_id(
            st,
            id,
        ).contains(st[i]) by {
            if i < st.len() - 1 {
                assert(st[i] == st.drop_last()[i]);
                let k = choose|k: int| 0 <= k < rest.len() && rest[k] == st[i];
                assert(without_id(st, id)[k] == rest[k]);
            } else {
                assert(without_id(st, id)[rest.len() as int] == st.last());
            }
        }
    }
}

/// Removing a card keeps every other card, in its order (the order is the
/// fallback priority): what remains is exactly the stack's subsequence of
/// cards whose id is not `id`.
pub proof fn lemma_remove_keeps_order(st: Seq<EntryView>, id: Seq<char>)
    ensures
        without_id(st, id) == st.filter(|e: EntryView| e.id != Some(id)),
    decreases st.len(),
{
    reveal(Seq::filter);
    if st.len() > 0 {
        lemma_remove_keeps_order(st.drop_last(), id);
    }
}

/// Take the card(s) with this id out of the stack. No stack, no change.
pub fn remove_provider(cfg: &mut Config, id: &str)
    ensures
        final(cfg)@ == with_stack(
            old(cfg)@,
            match old(cfg)@.providers {
                Some(st) => Some(without_id(st, id@)),
                None => None,
            },
        ),
        match old(cfg)@.providers {
            Some(st) => final(cfg)@.providers == Some(st.filter(|e: EntryView| e.id != Some(id@))),
            None => final(cfg)@.providers is None,
        },
{
    proof {
        if let Some(st) = old(cfg)@.providers {
            lemma_remove_keeps_order(st, id@);
        }
    }
    match cfg.providers.take() {
        Some(v) => {
            let ghost st = stack_view(v@);
            let mut out: Vec<ProviderEntry> = Vec::new();
            let mut i: usize = 0;
            assert(st.take(0) =~= Seq::<EntryView>::empty());
            while i < v.len()
                invariant
                    i <= v@.len(),
                    st == stack_view(v@),
                    stack_view(out@) == without_id(st.take(i as int), id@),
                decreases v@.len() - i,
            {
                assert(st.take(i + 1).drop_last() =~= st.take(i as int));
                assert(st.take(i + 1).last() == v@[i as int]@);
                if !entry_has_id(&v[i], id) {
                    let ghost before = out@;
                    let e = copy_entry(&v[i]);
                    out.push(e);
                    assert(stack_view(out@) =~= stack_view(before).push(e@));
                }
                i = i + 1;
            }
            assert(st.take(v@.len() as int) =~= st);
            cfg.providers = Some(out);
        },
        None => {},
    }
}

fn entry_has_id(e: &ProviderEntry, id: &str) -> (b: bool)
    ensures
        b == id_matches(e@, id@),
{
    match &e.id {
        Some(s) => str_eq(s.as_str(), id),
        None => false,
    }
}

/// No two cards of the stack share an id.
pub open spec fn ids_unique(st: Seq<EntryView>) -> bool {
    forall|i: int, j: int|
        0 <= i < j < st.len() && (#[trigger] st[i]).id is Some ==> st[i].id != (#[trigger] st[j]).id
}

/// Adding a card keeps the ids of the stack distinct: the new card's id is
/// one no card holds.
pub proof fn lemma_add_keeps_ids_unique(c: ConfigView, provider: Seq<char>)
    requires
        ids_have_room(c),
        ids_unique(stack_of(c)),
        add_spec(c, provider) is Ok,
    ensures
        ids_unique(stack_of(add_spec(c, provider)->Ok_0)),
{
    lemma_next_id_is_fresh(c);
    let st = stack_of(c);
    let e = new_entry_spec(provider, next_id_spec(st)).unwrap();
    let st2 = st.push(e);
    assert(stack_of(add_spec(c, provider)->Ok_0) == st2);
    assert forall|i: int, j: int|
        0 <= i < j < st2.len() && (#[trigger] st2[i]).id is Some implies st2[i].id != (
        #[trigger] st2[j]).id by {
        if j == st.len() {
            assert(st2[j].id == Some(next_id_spec(st)));
            assert(st2[i] == st[i]);
        } else {
            assert(st2[i] == st[i]);
            assert(st2[j] == st[j]);
        }
    }
}

/// The position of the first card with this id, -1 for none.
pub open spec fn index_of_id(st: Seq<EntryView>, id: Seq<char>) -> int
    decreases st.len(),
{
    if st.len() == 0 {
        -1
    } else if id_matches(st[0], id) {
        0
    } else {
        let r = index_of_id(st.drop_first(), id);
        if r < 0 {
            -1
        } else {
            r + 1
        }
    }
}

pub proof fn lemma_index_of_id(st: Seq<EntryView>, id: Seq<char>)
    ensures
        -1 <= index_of_id(st, id) < st.len(),
        index_of_id(st, id) >= 0 ==> id_matches(st[index_of_id(st, id)], id),
        forall|j: int|
            0 <= j < st.len() && (index_of_id(st, id) < 0 || j < index_of_id(st, id)) ==> !id_matches(
                #[trigger] st[j],
                id,
            ),
    decreases st.len(),
{
    if st.len() > 0 && !id_matches(st[0], id) {
        lemma_index_of_id(st.drop_first(), id);
        assert forall|j: int|
            0 <= j < st.len() && (index_of_id(st, id) < 0 || j < index_of_id(st, id)) implies !id_matches(
            #[trigger] st[j],
            id,
        ) by {
            if j > 0 {
                assert(st[j] == st.drop_first()[j - 1]);
            }
        }
    }
}

/// `index_of_id` is pinned down by where the first match sits.
pub proof fn lemma_index_of_id_at(st: Seq<EntryView>, id: Seq<char>, k: int)
    requires
        0 <= k < st.len(),
        id_matches(st[k], id),
        forall|j: int| 0 <= j < k ==> !id_matches(#[trigger] st[j], id),
    ensures
        index_of_id(st, id) == k,
{
    lemma_index_of_id(st, id);
    let r = index_of_id(st, id);
    if r < 0 || r > k {
        assert(!id_matches(st[k], id));
    }
    if r < k {
        assert(!id_matches(st[r], id));
    }
}

fn find_entry(v: &Vec<ProviderEntry>, id: &str) -> (k: Option<usize>)
    ensures
        match k {
            Some(k) => index_of_id(stack_view(v@), id@) == k as int && k < v@.len(),
            None => index_of_id(stack_view(v@), id@) == -1,
        },
{
    let ghost st = stack_view(v@);
    proof {
        lemma_index_of_id(st, id@);
    }
    let mut i: usize = 0;
    while i < v.len()
        invariant
            i <= v@.len(),
            st == stack_view(v@),
            forall|j: int| 0 <= j < i ==> !id_matches(#[trigger] st[j], id@),
        decreases v@.len() - i,
    {
        if entry_has_id(&v[i], id) {
            proof {
                lemma_index_of_id_at(st, id@, i as int);
            }
            return Some(i);
        }
        i = i + 1;
    }
    proof {
        lemma_index_of_id(st, id@);
        if index_of_id(st, id@) >= 0 {
            assert(id_matches(st[index_of_id(st, id@)], id@));
        }
    }
    None
}

pub open spec fn editable_field(field: Seq<char>) -> bool {
    field == "url"@ || field == "model"@ || field == "label"@
}

pub open spec fn set_field(e: EntryView, field: Seq<char>, value: Seq<char>) -> EntryView {
    if field == "url"@ {
        EntryView { url: value, ..e }
    } else if field == "model"@ {
        EntryView { model: value, ..e }
    } else {
        EntryView { label: value, ..e }
    }
}

pub open spec fn set_field_spec(c: ConfigView, id: Seq<char>, field: Seq<char>, value: Seq<char>) -> Result<ConfigView, Seq<char>> {
    if !editable_field(field) {
        Err("field not editable: "@ + field)
    } else if field == "url"@ && !https_ok(value) {
        Err(HTTPS_REQUIRED@)
    } else {
        match c.providers {
            None => Err(NO_PROVIDERS@),
            Some(st) => {
                let k = index_of_id(st, id);
                if k < 0 {
                    Err(UNKNOWN_ENTRY@)
                } else {
                    Ok(with_stack(c, Some(st.update(k, set_field(st[k], field, trim(value))))))
                }
            },
        }
    }
}

/// Edit one editable field (url / model / label) of a card; the value is
/// stored trimmed, and an endpoint must pass `require_https`.
pub fn set_provider_field(cfg: &mut Config, id: &str, field: &str, value: &str) -> (r: Result<(), String>)
    ensures
        match r {
            Ok(()) => set_field_spec(old(cfg)@, id@, field@, value@) == Ok::<ConfigView, Seq<char>>(final(cfg)@),
            Err(e) => set_field_spec(old(cfg)@, id@, field@, value@) == Err::<ConfigView, Seq<char>>(e@)
                && final(cfg)@ == old(cfg)@,
        },
{
    let is_url = str_eq(field, "url");
    let is_model = str_eq(field, "model");
    let is_label = str_eq(field, "label");
    if !(is_url || is_model || is_label) {
        return Err(concat("field not editable: ", field));
    }
    if is_url {
        match require_https(value) {
            Ok(()) => {},
            Err(e) => {
                return Err(e);
            },
        }
    }
    match cfg.providers.take() {
        None => Err(NO_PROVIDERS.to_owned()),
        Some(mut v) => {
            let ghost st = stack_view(v@);
            match find_entry(&v, id) {
                None => {
                    cfg.providers = Some(v);
                    Err(UNKNOWN_ENTRY.to_owned())
                },
                Some(k) => {
                    let t = trim_str(value);
                    let mut e = copy_entry(&v[k]);
                    if is_url {
                        e.url = t;
                    } else if is_model {
                        e.model = t;
                    } else {
                        e.label = t;
                    }
                    let ghost ev = e@;
                    v.set(k, e);
                    proof {
                        assert(stack_view(v@) =~= st.update(k as int, ev));
                    }
                    cfg.providers = Some(v);
                    Ok(())
                },
            }
        },
    }
}

/// Whatever endpoint `set_provider_field` accepts and stores passes the
/// https check: blank, or `https://`.
pub proof fn lemma_stored_endpoint_is_https(c: ConfigView, id: Seq<char>, value: Seq<char>)
    requires
        set_field_spec(c, id, "url"@, value) is Ok,
    ensures
        https_ok(trim(value)),
        ({
            let st = stack_of(set_field_spec(c, id, "url"@, value)->Ok_0);
            st[index_of_id(stack_of(c), id)].url == trim(value)
        }),
{
    lemma_trim_idempotent(value);
    lemma_index_of_id(stack_of(c), id);
}

pub open spec fn swap(st: Seq<EntryView>, a: int, b: int) -> Seq<EntryView> {
    st.update(a, st[b]).update(b, st[a])
}

/// Where `move_provider` takes the card at `k`: one up, one down, or nowhere
/// at either end of the stack.
pub open spec fn move_target(len: int, k: int, up: bool) -> Option<int> {
    if up {
        if k > 0 {
            Some(k - 1)
        } else {
            None
        }
    } else if k + 1 < len {
        Some(k + 1)
    } else {
        None
    }
}

pub open spec fn move_spec(c: ConfigView, id: Seq<char>, up: bool) -> Result<(ConfigView, bool), Seq<char>> {
    match c.providers {
        None => Err(NO_PROVIDERS@),
        Some(st) => {
            let k = index_of_id(st, id);
            if k < 0 {
                Err(UNKNOWN_ENTRY@)
            } else {
                match move_target(st.len() as int, k, up) {
                    Some(t) => Ok((with_stack(c, Some(swap(st, k, t))), true)),
                    None => Ok((c, false)),
                }
            }
        },
    }
}

/// Move a card up or down — the order IS the fallback priority. `Ok(true)`
/// when it moved, `Ok(false)` at the end of the stack.
pub fn move_provider(cfg: &mut Config, id: &str, up: bool) -> (r: Result<bool, String>)
    ensures
        match r {
            Ok(moved) => move_spec(old(cfg)@, id@, up) == Ok::<(ConfigView, bool), Seq<char>>(
                (final(cfg)@, moved),
            ),
            Err(e) => move_spec(old(cfg)@, id@, up) == Err::<(ConfigView, bool), Seq<char>>(e@)
                && final(cfg)@ == old(cfg)@,
        },
{
    match cfg.providers.take() {
        None => Err(NO_PROVIDERS.to_owned()),
        Some(mut v) => {
            let ghost st = stack_view(v@);
            match find_entry(&v, id) {
                None => {
                    cfg.providers = Some(v);
                    Err(UNKNOWN_ENTRY.to_owned())
                },
                Some(k) => {
                    let target: Option<usize> = if up {
                        if k > 0 {
                            Some(k - 1)
                        } else {
                            None
                        }
                    } else if k < v.len() - 1 {
                        Some(k + 1)
                    } else {
                        None
                    };
                    match target {
                        Some(t) => {
                            let a = copy_entry(&v[k]);
                            let b = copy_entry(&v[t]);
                            v.set(k, b);
                            v.set(t, a);
                            assert(stack_view(v@) =~= swap(st, k as int, t as int));
                            cfg.providers = Some(v);
                            Ok(true)
                        },
                        None => {
                            cfg.providers = Some(v);
                            assert(cfg@ == old(cfg)@);
                            Ok(false)
                        },
                    }
                },
            }
        },
    }
}

/// Moving a card up and then down again puts the stack back as it was.
pub proof fn lemma_move_up_then_down(c: ConfigView, id: Seq<char>)
    requires
        move_spec(c, id, true) matches Ok((_, moved)) && moved,
    ensures
        ({
            let d = (move_spec(c, id, true)->Ok_0).0;
            move_spec(d, id, false) == Ok::<(ConfigView, bool), Seq<char>>((c, true))
        }),
{
    let st = stack_of(c);
    lemma_index_of_id(st, id);
    let k = index_of_id(st, id);
    let st2 = swap(st, k, k - 1);
    assert forall|j: int| 0 <= j < k - 1 implies !id_matches(#[trigger] st2[j], id) by {
        assert(st2[j] == st[j]);
    }
    lemma_index_of_id_at(st2, id, k - 1);
    assert(swap(st2, k - 1, k) =~= st);
}

/// Moving a card down and then up again puts the stack back as it was, when
/// no other card carries the same id.
pub proof fn lemma_move_down_then_up(c: ConfigView, id: Seq<char>)
    requires
        move_spec(c, id, false) matches Ok((_, moved)) && moved,
        forall|i: int, j: int|
            0 <= i < j < stack_of(c).len() ==> !(id_matches(#[trigger] stack_of(c)[i], id)
                && id_matches(#[trigger] stack_of(c)[j], id)),
    ensures
        ({
            let d = (move_spec(c, id, false)->Ok_0).0;
            move_spec(d, id, true) == Ok::<(ConfigView, bool), Seq<char>>((c, true))
        }),
{
    let st = stack_of(c);
    lemma_index_of_id(st, id);
    let k = index_of_id(st, id);
    let st2 = swap(st, k, k + 1);
    assert(st2[k + 1] == st[k]);
    assert(st2[k] == st[k + 1]);
    assert(!id_matches(st2[k], id));
    assert forall|j: int| 0 <= j < k + 1 implies !id_matches(#[trigger] st2[j], id) by {
        if j < k {
            assert(st2[j] == st[j]);
        }
    }
    lemma_index_of_id_at(st2, id, k + 1);
    assert(swap(st2, k + 1, k) =~= st);
}


// ---------------------------------------------------------------------------
// Numbers, the instruction, the hotkey
// ---------------------------------------------------------------------------

pub open spec fn clamp(v: int, lo: int, hi: int) -> int {
    if v < lo {
        lo
    } else if v > hi {
        hi
    } else {
        v
    }
}

/// Failures in a row before the stack walks on: 1 to 100.
pub fn set_fallback_threshold(cfg: &mut Config, value: u64)
    ensures
        final(cfg)@ == (ConfigView {
            fallback_threshold: Some(clamp(value as int, 1, 100) as u64),
            ..old(cfg)@
        }),
{
    let v: u64 = if value < 1 {
        1
    } else if value > 100 {
        100
    } else {
        value
    };
    cfg.fallback_threshold = Some(v);
}

/// Minutes before the stack climbs back to the top: 1 to 1440.
pub fn set_fallback_cooldown(cfg: &mut Config, minutes: u64)
    ensures
        final(cfg)@ == (ConfigView {
            fallback_cooldown_mins: Some(clamp(minutes as int, 1, 1440) as u64),
            ..old(cfg)@
        }),
{
    let v: u64 = if minutes < 1 {
        1
    } else if minutes > 1440 {
        1440
    } else {
        minutes
    };
    cfg.fallback_cooldown_mins = Some(v);
}

pub open spec fn history_days_spec(c: ConfigView) -> i64 {
    let d = match c.history_days {
        Some(d) => d,
        None => 7,
    };
    clamp(d as int, 1, 365) as i64
}

/// Days of correction history to keep on disk: the stored number, 7 when
/// there is none, always within 1 to 365.
pub fn history_days(cfg: &Config) -> (d: i64)
    ensures
        d == history_days_spec(cfg@),
        1 <= d <= 365,
{
    let d: i64 = match cfg.history_days {
        Some(d) => d,
        None => 7,
    };
    if d < 1 {
        1
    } else if d > 365 {
        365
    } else {
        d
    }
}

/// Store the number of days of history to keep, clamped to 1 to 365; the
/// stored number is returned.
pub fn set_history_days(cfg: &mut Config, days: i64) -> (d: i64)
    ensures
        d == clamp(days as int, 1, 365),
        final(cfg)@ == (ConfigView { history_days: Some(d), ..old(cfg)@ }),
{
    let d: i64 = if days < 1 {
        1
    } else if days > 365 {
        365
    } else {
        days
    };
    cfg.history_days = Some(d);
    d
}

/// What is stored is what is read back.
pub proof fn lemma_history_days_read_back(c: ConfigView, days: i64)
    ensures
        history_days_spec(ConfigView { history_days: Some(clamp(days as int, 1, 365) as i64), ..c })
            == clamp(days as int, 1, 365),
{
}

/// The instruction to send with a correction: the user's, or Quill's when
/// they have not written one.
pub open spec fn prompt_instruction_spec(c: ConfigView) -> Seq<char> {
    match c.prompt {
        Some(p) => effective_instruction(p),
        None => DEFAULT_INSTRUCTION@,
    }
}

pub fn prompt_instruction(cfg: &Config) -> (p: String)
    ensures
        p@ == prompt_instruction_spec(cfg@),
{
    match &cfg.prompt {
        Some(p) => {
            let t = trim_str(p.as_str());
            if t.as_str().is_empty() {
                DEFAULT_INSTRUCTION.to_owned()
            } else {
                t
            }
        },
        None => DEFAULT_INSTRUCTION.to_owned(),
    }
}

pub open spec fn set_prompt_spec(c: ConfigView, instruction: Seq<char>) -> ConfigView {
    ConfigView {
        prompt: if is_blank(instruction) {
            None
        } else {
            Some(trim(instruction))
        },
        ..c
    }
}

/// Store the user's instruction, trimmed. Blank puts Quill's own back — that
/// is what the reset control sends.
pub fn set_prompt(cfg: &mut Config, instruction: &str)
    ensures
        final(cfg)@ == set_prompt_spec(old(cfg)@, instruction@),
{
    let t = trim_str(instruction);
    if t.as_str().is_empty() {
        cfg.prompt = None;
    } else {
        cfg.prompt = Some(t);
    }
}

/// The instruction stored by `set_prompt` is the one the next correction
/// sends, and the prompt built from it is the one `system_prompt` builds from
/// what was typed.
pub proof fn lemma_prompt_read_back(c: ConfigView, instruction: Seq<char>)
    ensures
        prompt_instruction_spec(set_prompt_spec(c, instruction)) == effective_instruction(
            instruction,
        ),
        system_prompt_spec(prompt_instruction_spec(set_prompt_spec(c, instruction)))
            == system_prompt_spec(instruction),
{
    lemma_trim_idempotent(instruction);
    lemma_trim_is_trimmed(instruction);
    let e = effective_instruction(instruction);
    lemma_default_instruction_trimmed();
    lemma_trim_idempotent(e);
}

pub const DEFAULT_SHORTCUT: &'static str = "ctrl+alt+e";

pub open spec fn shortcut_spec(c: ConfigView) -> Seq<char> {
    match c.shortcut {
        Some(s) => s,
        None => DEFAULT_SHORTCUT@,
    }
}

/// The hotkey to register: the saved one, or ⌃⌥E.
pub fn current_shortcut(cfg: &Config) -> (s: String)
    ensures
        s@ == shortcut_spec(cfg@),
{
    match &cfg.shortcut {
        Some(s) => s.clone(),
        None => DEFAULT_SHORTCUT.to_owned(),
    }
}

/// Every key slot the stack refers to, in stack order — the slots whose keys
/// are loaded at startup, a custom entry's own slot included.
pub fn key_slots(cfg: &Config) -> (slots: Vec<String>)
    ensures
        slots@.len() == stack_of(cfg@).len(),
        forall|i: int| 0 <= i < slots@.len() ==> #[trigger] slots@[i]@ == stack_of(cfg@)[i].key_env,
{
    let mut slots: Vec<String> = Vec::new();
    match &cfg.providers {
        Some(v) => {
            let mut i: usize = 0;
            while i < v.len()
                invariant
                    i <= v@.len(),
                    slots@.len() == i,
                    forall|j: int| 0 <= j < i ==> #[trigger] slots@[j]@ == v@[j].key_env@,
                decreases v@.len() - i,
            {
                slots.push(v[i].key_env.clone());
                i = i + 1;
            }
        },
        None => {},
    }
    slots
}

/// The key slot of the card with this id, for storing its key.
pub fn entry_key_env(cfg: &Config, id: &str) -> (r: Result<String, String>)
    ensures
        match r {
            Ok(k) => index_of_id(stack_of(cfg@), id@) >= 0 && k@ == stack_of(cfg@)[index_of_id(
                stack_of(cfg@),
                id@,
            )].key_env,
            Err(e) => index_of_id(stack_of(cfg@), id@) < 0 && e@ == UNKNOWN_ENTRY@,
        },
{
    match &cfg.providers {
        Some(v) => match find_entry(v, id) {
            Some(k) => Ok(v[k].key_env.clone()),
            None => Err(UNKNOWN_ENTRY.to_owned()),
        },
        None => Err(UNKNOWN_ENTRY.to_owned()),
    }
}

pub const NO_MODEL: &'static str = "No model configured — open Quill settings.";

/// Where a correction starts walking the stack: the entry the sticky fallback
/// state points at, pulled back inside the stack; an empty stack is an error.
pub fn correction_start(len: usize, active: usize) -> (r: Result<usize, String>)
    ensures
        len == 0 ==> (r matches Err(e) && e@ == NO_MODEL@),
        len > 0 ==> r == Ok::<usize, String>(if active < len {
            active
        } else {
            (len - 1) as usize
        }),
{
    if len == 0 {
        return Err(NO_MODEL.to_owned());
    }
    if active < len {
        Ok(active)
    } else {
        Ok(len - 1)
    }
}

} // verus!
