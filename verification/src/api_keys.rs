use vstd::prelude::*;
use crate::json::{Json, JVal, jget_path, jset_path, keys, keys_view, find_key, remove_member, remove_member_exec, find_member, entries_view, lemma_obj_view, lemma_find_key, lemma_find_key_same_names, lemma_jget_path_concat, lemma_remove_unique, law_set_path_read_back, unique_keys};
use crate::text::{
    byte_len, byte_len_exec, char_index_at_byte, char_index_at_byte_exec, chars_of, starts_with,
    str_eq, str_starts_with, string_of,
};

verus! {

/// A provider's key as the key list shows it.
pub struct ApiKeyEntry {
    pub provider: String,
    pub name: String,
    pub has_key: bool,
    pub key_preview: Option<String>,
    pub valid_format: bool,
}

/// The providers whose keys are managed, by id and display name.
pub open spec fn provider_table() -> Seq<(Seq<char>, Seq<char>)> {
    seq![
        ("openai"@, "OpenAI"@),
        ("anthropic"@, "Anthropic"@),
        ("openrouter"@, "OpenRouter"@),
        ("deepseek"@, "DeepSeek"@),
        ("gemini"@, "Google Gemini"@),
        ("moonshot"@, "Moonshot"@),
        ("minimax"@, "MiniMax"@),
        ("elevenlabs"@, "ElevenLabs"@),
    ]
}

/// Whether `key` looks like a key of `provider`: a provider prefix and
/// more than 20 bytes for the `sk-` providers, more than 10 bytes for the
/// others that are known, more than 5 bytes for an unknown provider.
pub open spec fn key_format_ok(provider: Seq<char>, key: Seq<char>) -> bool {
    let n = byte_len(key);
    if provider == "openai"@ || provider == "deepseek"@ || provider == "moonshot"@ {
        starts_with(key, "sk-"@) && n > 20
    } else if provider == "anthropic"@ {
        starts_with(key, "sk-ant-"@) && n > 20
    } else if provider == "openrouter"@ {
        starts_with(key, "sk-or-"@) && n > 20
    } else if provider == "gemini"@ || provider == "minimax"@ || provider == "elevenlabs"@ {
        n > 10
    } else {
        n > 5
    }
}

/// Checks the format of an API key for a provider.
pub fn validate_key_format(provider: &str, key: &str) -> (r: bool)
    ensures
        r == key_format_ok(provider@, key@),
{
    let n = byte_len_exec(&chars_of(key));
    if str_eq(provider, "openai") || str_eq(provider, "deepseek") || str_eq(provider, "moonshot") {
        str_starts_with(key, "sk-") && n > 20
    } else if str_eq(provider, "anthropic") {
        str_starts_with(key, "sk-ant-") && n > 20
    } else if str_eq(provider, "openrouter") {
        str_starts_with(key, "sk-or-") && n > 20
    } else if str_eq(provider, "gemini") || str_eq(provider, "minimax") || str_eq(provider, "elevenlabs") {
        n > 10
    } else {
        n > 5
    }
}

/// The path of a provider's key in the configuration.
pub open spec fn api_key_path(id: Seq<char>) -> Seq<Seq<char>> {
    seq!["models"@, "providers"@, id, "apiKey"@]
}

/// The key text of a provider: its string, or empty where the key is not a
/// string.
pub open spec fn raw_key(cfg: JVal, id: Seq<char>) -> Seq<char> {
    match jget_path(cfg, api_key_path(id)) {
        Some(JVal::Str(s)) => s,
        _ => Seq::empty(),
    }
}

/// The masked form of a key: its first and last four bytes around `...`
/// for a key of more than 8 bytes, else `****`. `None` where those byte
/// offsets split a character (slicing the key there panics).
pub open spec fn key_preview(raw: Seq<char>) -> Option<Seq<char>> {
    let n = byte_len(raw);
    if n > 8 {
        match (char_index_at_byte(raw, 4), char_index_at_byte(raw, n - 4)) {
            (Some(a), Some(b)) => Some(raw.take(a) + "..."@ + raw.skip(b)),
            _ => None,
        }
    } else {
        Some("****"@)
    }
}

/// Masks a key for display.
pub fn preview_key(raw: &str) -> (r: Option<String>)
    ensures
        match key_preview(raw@) {
            Some(p) => r matches Some(s) && s@ == p,
            None => r is None,
        },
{
    let v = chars_of(raw);
    let n = byte_len_exec(&v);
    if n > 8 {
        let a = char_index_at_byte_exec(&v, 4);
        let b = char_index_at_byte_exec(&v, n - 4);
        match (a, b) {
            (Some(a), Some(b)) => {
                let mut out: Vec<char> = Vec::new();
                let mut i: usize = 0;
                while i < a
                    invariant
                        a <= v@.len(),
                        i <= a,
                        out@ =~= v@.take(i as int),
                    decreases a - i,
                {
                    out.push(v[i]);
                    i = i + 1;
                }
                out.push('.');
                out.push('.');
                out.push('.');
                let ghost mid = out@;
                let mut j: usize = b;
                while j < v.len()
                    invariant
                        b <= j <= v@.len(),
                        out@ =~= mid + v@.subrange(b as int, j as int),
                    decreases v@.len() - j,
                {
                    out.push(v[j]);
                    j = j + 1;
                }
                proof {
                    reveal_strlit("...");
                    assert(out@ =~= v@.take(a as int) + "..."@ + v@.skip(b as int));
                }
                Some(string_of(&out))
            },
            _ => None,
        }
    } else {
        proof {
            reveal_strlit("****");
        }
        let s = chars_of("****");
        Some(string_of(&s))
    }
}


/// What the key list says of one provider.
pub open spec fn entry_matches(e: ApiKeyEntry, cfg: JVal, id: Seq<char>, name: Seq<char>) -> bool {
    let has = jget_path(cfg, api_key_path(id)) is Some;
    &&& e.provider@ == id
    &&& e.name@ == name
    &&& e.has_key == has
    &&& if has {
        e.key_preview matches Some(p) && key_preview(raw_key(cfg, id)) == Some(p@)
    } else {
        e.key_preview is None
    }
    &&& e.valid_format == (has && key_format_ok(id, raw_key(cfg, id)))
}

/// Whether every stored key can be masked without splitting a character.
pub open spec fn previews_ok(cfg: JVal) -> bool {
    forall|i: int|
        0 <= i < provider_table().len() ==> (jget_path(cfg, api_key_path(#[trigger] provider_table()[i].0)) is Some
            ==> key_preview(raw_key(cfg, provider_table()[i].0)) is Some)
}

/// The list entry of one provider; `None` where masking its key would
/// split a character.
fn entry_for(cfg: &Json, id: &str, name: &str) -> (r: Option<ApiKeyEntry>)
    ensures
        match r {
            Some(e) => entry_matches(e, cfg@, id@, name@),
            None => jget_path(cfg@, api_key_path(id@)) is Some && key_preview(raw_key(cfg@, id@)) is None,
        },
{
    let path = keys(&["models", "providers", id, "apiKey"]);
    proof {
        assert(keys_view(path@) =~= api_key_path(id@));
    }
    match cfg.get_path(&path) {
        Some(v) => {
            let raw: &str = match v.as_str() {
                Some(t) => t,
                None => "",
            };
            proof {
                reveal_strlit("");
                assert(raw@ == raw_key(cfg@, id@));
            }
            match preview_key(raw) {
                Some(p) => Some(
                    ApiKeyEntry {
                        provider: id.to_owned(),
                        name: name.to_owned(),
                        has_key: true,
                        key_preview: Some(p),
                        valid_format: validate_key_format(id, raw),
                    },
                ),
                None => None,
            }
        },
        None => Some(
            ApiKeyEntry {
                provider: id.to_owned(),
                name: name.to_owned(),
                has_key: false,
                key_preview: None,
                valid_format: false,
            },
        ),
    }
}

/// The key list of every provider, in table order; `None` exactly where
/// masking a stored key would split a character.
pub fn list_keys_checked(cfg: &Json) -> (r: Option<Vec<ApiKeyEntry>>)
    ensures
        r is Some <==> previews_ok(cfg@),
        r matches Some(v) ==> v@.len() == provider_table().len() && forall|i: int|
            0 <= i < v@.len() ==> entry_matches(
                #[trigger] v@[i],
                cfg@,
                provider_table()[i].0,
                provider_table()[i].1,
            ),
{
    let ids: [&str; 8] = [
        "openai",
        "anthropic",
        "openrouter",
        "deepseek",
        "gemini",
        "moonshot",
        "minimax",
        "elevenlabs",
    ];
    let names: [&str; 8] = [
        "OpenAI",
        "Anthropic",
        "OpenRouter",
        "DeepSeek",
        "Google Gemini",
        "Moonshot",
        "MiniMax",
        "ElevenLabs",
    ];
    assert(forall|i: int| 0 <= i < 8 ==> ids@[i]@ == provider_table()[i].0 && names@[i]@ == provider_table()[i].1);
    let mut out: Vec<ApiKeyEntry> = Vec::new();
    let mut i: usize = 0;
    while i < 8
        invariant
            i <= 8,
            out@.len() == i,
            forall|j: int| 0 <= j < 8 ==> ids@[j]@ == provider_table()[j].0 && names@[j]@ == provider_table()[j].1,
            forall|j: int|
                0 <= j < i ==> entry_matches(
                    #[trigger] out@[j],
                    cfg@,
                    provider_table()[j].0,
                    provider_table()[j].1,
                ),
            forall|j: int|
                0 <= j < i ==> (jget_path(cfg@, api_key_path(#[trigger] provider_table()[j].0)) is Some
                    ==> key_preview(raw_key(cfg@, provider_table()[j].0)) is Some),
        decreases 8 - i,
    {
        match entry_for(cfg, ids[i], names[i]) {
            Some(e) => {
                out.push(e);
            },
            None => {
                assert(!previews_ok(cfg@));
                return None;
            },
        }
        i = i + 1;
    }
    Some(out)
}

/// The key list of every provider, in table order: whether a key is
/// stored, its masked form and whether its format is valid.
pub fn list_keys_from(cfg: &Json) -> (r: Vec<ApiKeyEntry>)
    requires
        previews_ok(cfg@),
    ensures
        r@.len() == provider_table().len(),
        forall|i: int|
            0 <= i < r@.len() ==> entry_matches(
                #[trigger] r@[i],
                cfg@,
                provider_table()[i].0,
                provider_table()[i].1,
            ),
{
    match list_keys_checked(cfg) {
        Some(v) => v,
        None => Vec::new(),
    }
}


/// The configuration with `key` stored as the key of `provider`; `None`
/// where a value on the way is neither an object nor null (assigning there
/// panics).
pub fn set_key_config(cfg: Json, provider: &str, key: &str) -> (r: Option<Json>)
    ensures
        match jset_path(cfg@, api_key_path(provider@), JVal::Str(key@)) {
            Some(v) => r matches Some(j) && j@ == v,
            None => r is None,
        },
{
    let path = keys(&["models", "providers", provider, "apiKey"]);
    proof {
        assert(keys_view(path@) =~= api_key_path(provider@));
    }
    cfg.set_path(&path, Json::String(key.to_owned()))
}

/// The path of the provider table.
pub open spec fn providers_path() -> Seq<Seq<char>> {
    seq!["models"@, "providers"@]
}

/// The provider table without the key of `id`: the `apiKey` member goes
/// from `id`'s entry where that entry is an object.
pub open spec fn without_api_key(providers: JVal, id: Seq<char>) -> JVal {
    match providers {
        JVal::Obj(es) => {
            let i = find_key(es, id);
            if i >= 0 && es[i].1 is Obj {
                JVal::Obj(es.update(i, (id, JVal::Obj(remove_member(es[i].1->Obj_0, "apiKey"@)))))
            } else {
                providers
            }
        },
        _ => providers,
    }
}

/// What deleting a key does to the configuration: the provider table is
/// reached by assignment (so a missing `models` or `providers` is created,
/// the table as null) and the key leaves the provider's entry. `None` where
/// a value on the way is neither an object nor null.
pub open spec fn delete_key_result(cfg: JVal, id: Seq<char>) -> Option<JVal> {
    let cur = match jget_path(cfg, providers_path()) {
        Some(x) => x,
        None => JVal::Null,
    };
    jset_path(cfg, providers_path(), without_api_key(cur, id))
}

fn drop_api_key(providers: Json, id: &str) -> (r: Json)
    ensures
        r@ == without_api_key(providers@, id@),
{
    match providers {
        Json::Object(mut es) => {
            let ghost es0 = es@;
            let k = id.to_owned();
            proof {
                lemma_obj_view(es0, es0.len());
            }
            match find_member(&es, &k) {
                Some(i) => {
                    let (name, entry) = es.remove(i);
                    proof {
                        lemma_find_key(entries_view(es0), id@);
                    }
                    match entry {
                        Json::Object(mut pe) => {
                            let ak = "apiKey".to_owned();
                            remove_member_exec(&mut pe, &ak);
                            es.insert(i, (name, Json::Object(pe)));
                            proof {
                                lemma_obj_view(es@, es@.len());
                                assert(entries_view(es@) =~= entries_view(es0).update(
                                    i as int,
                                    (id@, JVal::Obj(remove_member(entries_view(es0)[i as int].1->Obj_0, "apiKey"@))),
                                ));
                            }
                            Json::Object(es)
                        },
                        other => {
                            es.insert(i, (name, other));
                            proof {
                                assert(es@ =~= es0);
                            }
                            Json::Object(es)
                        },
                    }
                },
                None => Json::Object(es),
            }
        },
        other => other,
    }
}

/// The configuration after deleting the key of `provider`
/// (see `delete_key_result`).
pub fn delete_key_config(cfg: Json, provider: &str) -> (r: Option<Json>)
    ensures
        match delete_key_result(cfg@, provider@) {
            Some(v) => r matches Some(j) && j@ == v,
            None => r is None,
        },
{
    let path = keys(&["models", "providers"]);
    proof {
        assert(keys_view(path@) =~= providers_path());
    }
    let cur = match cfg.get_path(&path) {
        Some(x) => x.deep_clone(),
        None => Json::Null,
    };
    let leaf = drop_api_key(cur, provider);
    cfg.set_path(&path, leaf)
}


/// Storing a key shows in the key list: the provider's entry in the
/// resulting configuration has a key, its masked form, and whether its
/// format is valid.
pub proof fn law_stored_key_listed(cfg: JVal, id: Seq<char>, key: Seq<char>, name: Seq<char>, e: ApiKeyEntry)
    requires
        jset_path(cfg, api_key_path(id), JVal::Str(key)) is Some,
        entry_matches(e, jset_path(cfg, api_key_path(id), JVal::Str(key))->Some_0, id, name),
    ensures
        e.has_key,
        raw_key(jset_path(cfg, api_key_path(id), JVal::Str(key))->Some_0, id) == key,
        e.key_preview matches Some(p) && key_preview(key) == Some(p@),
        e.valid_format == key_format_ok(id, key),
{
    law_set_path_read_back(cfg, api_key_path(id), JVal::Str(key));
}

/// A deleted key is no longer stored, where the provider's entry names its
/// key at most once (as any parsed configuration does).
pub proof fn law_deleted_key_gone(cfg: JVal, id: Seq<char>)
    requires
        delete_key_result(cfg, id) is Some,
        jget_path(cfg, providers_path().push(id)) matches Some(JVal::Obj(m)) ==> unique_keys(m),
    ensures
        jget_path(delete_key_result(cfg, id)->Some_0, api_key_path(id)) is None,
{
    let pp = providers_path();
    let cur = match jget_path(cfg, pp) {
        Some(x) => x,
        None => JVal::Null,
    };
    let w = without_api_key(cur, id);
    let c2 = delete_key_result(cfg, id)->Some_0;
    law_set_path_read_back(cfg, pp, w);
    let rest = seq![id, "apiKey"@];
    assert(api_key_path(id) =~= pp + rest);
    lemma_jget_path_concat(c2, pp, rest);
    lemma_jget_path_concat(cfg, pp, seq![id]);
    assert(pp.push(id) =~= pp + seq![id]);
    reveal_with_fuel(jget_path, 3);
    if let JVal::Obj(es) = cur {
        lemma_find_key(es, id);
        let i = find_key(es, id);
        if i >= 0 && es[i].1 is Obj {
            let m = es[i].1->Obj_0;
            let es2 = es.update(i, (id, JVal::Obj(remove_member(m, "apiKey"@))));
            lemma_find_key_same_names(es, es2, id);
            assert(jget_path(cfg, pp.push(id)) == Some(JVal::Obj(m)));
            lemma_remove_unique(m, "apiKey"@);
        }
    }
}


/// The rules of the key formats: OpenAI, DeepSeek and Moonshot keys start
/// with `sk-` and have more than 20 bytes; Anthropic keys start with
/// `sk-ant-` and OpenRouter keys with `sk-or-`, also over 20 bytes; Gemini,
/// MiniMax and ElevenLabs keys need more than 10 bytes; a key of any other
/// provider more than 5.
pub proof fn law_key_rules(provider: Seq<char>, key: Seq<char>)
    ensures
        (provider == "openai"@ || provider == "deepseek"@ || provider == "moonshot"@) ==> (key_format_ok(
            provider,
            key,
        ) <==> (starts_with(key, "sk-"@) && byte_len(key) > 20)),
        provider == "anthropic"@ ==> (key_format_ok(provider, key) <==> (starts_with(key, "sk-ant-"@)
            && byte_len(key) > 20)),
        provider == "openrouter"@ ==> (key_format_ok(provider, key) <==> (starts_with(key, "sk-or-"@)
            && byte_len(key) > 20)),
        (provider == "gemini"@ || provider == "minimax"@ || provider == "elevenlabs"@) ==> (key_format_ok(
            provider,
            key,
        ) <==> byte_len(key) > 10),
        !(provider == "openai"@ || provider == "deepseek"@ || provider == "moonshot"@ || provider
            == "anthropic"@ || provider == "openrouter"@ || provider == "gemini"@ || provider == "minimax"@
            || provider == "elevenlabs"@) ==> (key_format_ok(provider, key) <==> byte_len(key) > 5),
{
    reveal_strlit("openai");
    reveal_strlit("deepseek");
    reveal_strlit("moonshot");
    reveal_strlit("anthropic");
    reveal_strlit("openrouter");
    reveal_strlit("gemini");
    reveal_strlit("minimax");
    reveal_strlit("elevenlabs");
    assert("openai"@.len() != "deepseek"@.len());
    assert("openai"@.len() != "moonshot"@.len());
    assert("openai"@.len() != "anthropic"@.len());
    assert("openai"@.len() != "openrouter"@.len());
    assert("openai"@[0] != "gemini"@[0]);
    assert("openai"@.len() != "minimax"@.len());
    assert("openai"@.len() != "elevenlabs"@.len());
    assert("deepseek"@[0] != "moonshot"@[0]);
    assert("deepseek"@.len() != "anthropic"@.len());
    assert("deepseek"@.len() != "openrouter"@.len());
    assert("deepseek"@.len() != "gemini"@.len());
    assert("deepseek"@.len() != "minimax"@.len());
    assert("deepseek"@.len() != "elevenlabs"@.len());
    assert("moonshot"@.len() != "anthropic"@.len());
    assert("moonshot"@.len() != "openrouter"@.len());
    assert("moonshot"@.len() != "gemini"@.len());
    assert("moonshot"@.len() != "minimax"@.len());
    assert("moonshot"@.len() != "elevenlabs"@.len());
    assert("anthropic"@.len() != "openrouter"@.len());
    assert("anthropic"@.len() != "gemini"@.len());
    assert("anthropic"@.len() != "minimax"@.len());
    assert("anthropic"@.len() != "elevenlabs"@.len());
    assert("openrouter"@.len() != "gemini"@.len());
    assert("openrouter"@.len() != "minimax"@.len());
    assert("openrouter"@[0] != "elevenlabs"@[0]);
    assert("gemini"@.len() != "minimax"@.len());
    assert("gemini"@.len() != "elevenlabs"@.len());
    assert("minimax"@.len() != "elevenlabs"@.len());
}

/// The `sk-` providers share one rule: a key is valid for DeepSeek exactly
/// when it is valid for OpenAI, and for Moonshot.
pub proof fn law_sk_providers_agree(key: Seq<char>)
    ensures
        key_format_ok("deepseek"@, key) == key_format_ok("openai"@, key),
        key_format_ok("moonshot"@, key) == key_format_ok("openai"@, key),
{
    law_key_rules("openai"@, key);
    law_key_rules("deepseek"@, key);
    law_key_rules("moonshot"@, key);
}

} // verus!
