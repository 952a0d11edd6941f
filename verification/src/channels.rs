use vstd::prelude::*;
use crate::json::{Json, JVal, jget_path, jset_path, keys, keys_view, law_set_path_read_back};
use crate::text::str_eq;

verus! {

/// A messaging channel and the steps to connect it.
pub struct ChannelGuide {
    pub id: String,
    pub name: String,
    pub description: String,
    pub difficulty: String,
    pub steps: Vec<GuideStep>,
    pub config_keys: Vec<String>,
}

/// One step of a channel guide.
pub struct GuideStep {
    pub title: String,
    pub instruction: String,
    pub action_type: String,
    pub url: Option<String>,
    pub field_label: Option<String>,
    pub placeholder: Option<String>,
}

/// A step as (title, instruction, action type, url, field label, placeholder).
pub type StepV = (Seq<char>, Seq<char>, Seq<char>, Option<Seq<char>>, Option<Seq<char>>, Option<Seq<char>>);

/// A guide as (id, name, description, difficulty, steps, config keys).
pub type GuideV = (Seq<char>, Seq<char>, Seq<char>, Seq<char>, Seq<StepV>, Seq<Seq<char>>);

pub open spec fn opt_view(o: Option<String>) -> Option<Seq<char>> {
    match o {
        Some(s) => Some(s@),
        None => None,
    }
}

pub open spec fn step_view(s: GuideStep) -> StepV {
    (s.title@, s.instruction@, s.action_type@, opt_view(s.url), opt_view(s.field_label), opt_view(s.placeholder))
}

pub open spec fn guide_view(g: ChannelGuide) -> GuideV {
    (
        g.id@,
        g.name@,
        g.description@,
        g.difficulty@,
        g.steps@.map_values(|s: GuideStep| step_view(s)),
        g.config_keys@.map_values(|k: String| k@),
    )
}

pub open spec fn guides_view(v: Seq<ChannelGuide>) -> Seq<GuideV> {
    v.map_values(|g: ChannelGuide| guide_view(g))
}

/// The guides of the channels that the shell can set up.
pub open spec fn channel_guides_spec() -> Seq<GuideV> {
    seq![
        ("telegram"@, "Telegram"@, "Chat with your AI via Telegram messages"@, "easy"@, seq![("Create a Bot"@, "Open Telegram and message @BotFather. Send /newbot and follow the prompts."@, "open_url"@, Some("https://t.me/botfather"@), None, None), ("Copy Bot Token"@, "BotFather will give you a token like 123456:ABC-DEF... Paste it below."@, "paste_token"@, None, Some("Bot Token"@), Some("123456:ABC-DEF1234ghIkl-zyx57W2v1u123ew11"@))], seq!["TELEGRAM_BOT_TOKEN"@]),
        ("discord"@, "Discord"@, "Add your AI to a Discord server"@, "medium"@, seq![("Create a Discord App"@, "Go to the Discord Developer Portal and create a New Application."@, "open_url"@, Some("https://discord.com/developers/applications"@), None, None), ("Get Bot Token"@, "Go to the Bot section, click Reset Token, and copy it."@, "paste_token"@, None, Some("Bot Token"@), Some("MTAx..."@)), ("Enable Message Content Intent"@, "In the Bot section, scroll down and turn ON 'Message Content Intent'. Save."@, "none"@, None, None, None)], seq!["DISCORD_BOT_TOKEN"@]),
        ("slack"@, "Slack"@, "Add your AI to a Slack workspace"@, "medium"@, seq![("Create a Slack App"@, "Go to Slack API and create a New App 'From scratch'."@, "open_url"@, Some("https://api.slack.com/apps"@), None, None), ("Get Bot Token"@, "Go to OAuth & Permissions, add scopes (chat:write, im:history), then Install to Workspace. Copy the Bot User OAuth Token."@, "paste_token"@, None, Some("Bot Token"@), Some("xoxb-..."@))], seq!["SLACK_BOT_TOKEN"@]),
    ]
}

fn opt_string(o: Option<&str>) -> (r: Option<String>)
    ensures
        opt_view(r) == match o {
            Some(s) => Some(s@),
            None => None,
        },
{
    match o {
        Some(s) => Some(s.to_owned()),
        None => None,
    }
}

fn step(
    title: &str,
    instruction: &str,
    action_type: &str,
    url: Option<&str>,
    field_label: Option<&str>,
    placeholder: Option<&str>,
) -> (r: GuideStep)
    ensures
        step_view(r) == (
            title@,
            instruction@,
            action_type@,
            match url {
                Some(s) => Some(s@),
                None => None,
            },
            match field_label {
                Some(s) => Some(s@),
                None => None,
            },
            match placeholder {
                Some(s) => Some(s@),
                None => None,
            },
        ),
{
    GuideStep {
        title: title.to_owned(),
        instruction: instruction.to_owned(),
        action_type: action_type.to_owned(),
        url: opt_string(url),
        field_label: opt_string(field_label),
        placeholder: opt_string(placeholder),
    }
}

fn guide(
    id: &str,
    name: &str,
    description: &str,
    difficulty: &str,
    steps: Vec<GuideStep>,
    config_keys: Vec<String>,
) -> (r: ChannelGuide)
    ensures
        r.id@ == id@,
        r.name@ == name@,
        r.description@ == description@,
        r.difficulty@ == difficulty@,
        r.steps == steps,
        r.config_keys == config_keys,
{
    ChannelGuide {
        id: id.to_owned(),
        name: name.to_owned(),
        description: description.to_owned(),
        difficulty: difficulty.to_owned(),
        steps,
        config_keys,
    }
}

/// The step-by-step guides for connecting Telegram, Discord and Slack.
#[verifier::rlimit(50)]
pub fn get_channel_guides() -> (r: Vec<ChannelGuide>)
    ensures
        guides_view(r@) == channel_guides_spec(),
{
    let mut out: Vec<ChannelGuide> = Vec::new();
    let mut steps: Vec<GuideStep> = Vec::new();
    steps.push(step("Create a Bot", "Open Telegram and message @BotFather. Send /newbot and follow the prompts.", "open_url", Some("https://t.me/botfather"), None, None));
    steps.push(step("Copy Bot Token", "BotFather will give you a token like 123456:ABC-DEF... Paste it below.", "paste_token", None, Some("Bot Token"), Some("123456:ABC-DEF1234ghIkl-zyx57W2v1u123ew11")));
    let mut keys: Vec<String> = Vec::new();
    keys.push("TELEGRAM_BOT_TOKEN".to_owned());
    let g = guide("telegram", "Telegram", "Chat with your AI via Telegram messages", "easy", steps, keys);
    proof {
        assert(guide_view(g) =~= channel_guides_spec()[out@.len() as int]);
    }
    let ghost before = out@;
    out.push(g);
    assert(guides_view(out@) =~= guides_view(before).push(guide_view(g)));
    let mut steps: Vec<GuideStep> = Vec::new();
    steps.push(step("Create a Discord App", "Go to the Discord Developer Portal and create a New Application.", "open_url", Some("https://discord.com/developers/applications"), None, None));
    steps.push(step("Get Bot Token", "Go to the Bot section, click Reset Token, and copy it.", "paste_token", None, Some("Bot Token"), Some("MTAx...")));
    steps.push(step("Enable Message Content Intent", "In the Bot section, scroll down and turn ON 'Message Content Intent'. Save.", "none", None, None, None));
    let mut keys: Vec<String> = Vec::new();
    keys.push("DISCORD_BOT_TOKEN".to_owned());
    let g = guide("discord", "Discord", "Add your AI to a Discord server", "medium", steps, keys);
    proof {
        assert(guide_view(g) =~= channel_guides_spec()[out@.len() as int]);
    }
    let ghost before = out@;
    out.push(g);
    assert(guides_view(out@) =~= guides_view(before).push(guide_view(g)));
    let mut steps: Vec<GuideStep> = Vec::new();
    steps.push(step("Create a Slack App", "Go to Slack API and create a New App 'From scratch'.", "open_url", Some("https://api.slack.com/apps"), None, None));
    steps.push(step("Get Bot Token", "Go to OAuth & Permissions, add scopes (chat:write, im:history), then Install to Workspace. Copy the Bot User OAuth Token.", "paste_token", None, Some("Bot Token"), Some("xoxb-...")));
    let mut keys: Vec<String> = Vec::new();
    keys.push("SLACK_BOT_TOKEN".to_owned());
    let g = guide("slack", "Slack", "Add your AI to a Slack workspace", "medium", steps, keys);
    proof {
        assert(guide_view(g) =~= channel_guides_spec()[out@.len() as int]);
    }
    let ghost before = out@;
    out.push(g);
    assert(guides_view(out@) =~= guides_view(before).push(guide_view(g)));
    assert(guides_view(out@) =~= channel_guides_spec());
    out
}


/// The member that holds a channel's token, for the channels the shell
/// knows.
pub open spec fn token_field(channel: Seq<char>) -> Option<Seq<char>> {
    if channel == "telegram"@ {
        Some("botToken"@)
    } else if channel == "discord"@ {
        Some("token"@)
    } else if channel == "slack"@ {
        Some("botToken"@)
    } else {
        None
    }
}

/// The configuration after saving a channel's token: a `channels` object
/// is made where there is none, and a known channel's entry becomes an
/// object holding just the token. `None` where an assignment on the way
/// meets a value that is neither an object nor null (it panics).
pub open spec fn channel_config_result(cfg: JVal, channel: Seq<char>, token: Seq<char>) -> Option<JVal> {
    let c1 = if crate::json::jget(cfg, "channels"@) is Some {
        Some(cfg)
    } else {
        jset_path(cfg, seq!["channels"@], JVal::Obj(Seq::empty()))
    };
    match c1 {
        None => None,
        Some(c) => match token_field(channel) {
            Some(f) => jset_path(c, seq!["channels"@, channel], JVal::Obj(seq![(f, JVal::Str(token))])),
            None => Some(c),
        },
    }
}

fn token_object(field: &str, token: &str) -> (r: Json)
    ensures
        r@ == JVal::Obj(seq![(field@, JVal::Str(token@))]),
{
    let mut es: Vec<(String, Json)> = Vec::new();
    es.push((field.to_owned(), Json::String(token.to_owned())));
    proof {
        crate::json::lemma_obj_view(es@, es@.len());
        assert(crate::json::obj_view(es@, es@.len()) =~= seq![(field@, JVal::Str(token@))]);
    }
    Json::Object(es)
}

/// The configuration with a channel's token saved (see
/// `channel_config_result`).
pub fn save_channel_config(cfg: Json, channel: &str, token: &str) -> (r: Option<Json>)
    ensures
        match channel_config_result(cfg@, channel@, token@) {
            Some(v) => r matches Some(j) && j@ == v,
            None => r is None,
        },
{
    let c1 = if cfg.get("channels").is_some() {
        cfg
    } else {
        let path = keys(&["channels"]);
        proof {
            assert(keys_view(path@) =~= seq!["channels"@]);
        }
        match cfg.set_path(&path, Json::Object(Vec::new())) {
            Some(c) => c,
            None => {
                return None;
            },
        }
    };
    let field: Option<&str> = if str_eq(channel, "telegram") {
        Some("botToken")
    } else if str_eq(channel, "discord") {
        Some("token")
    } else if str_eq(channel, "slack") {
        Some("botToken")
    } else {
        None
    };
    match field {
        Some(f) => {
            let path = keys(&["channels", channel]);
            proof {
                assert(keys_view(path@) =~= seq!["channels"@, channel@]);
            }
            c1.set_path(&path, token_object(f, token))
        },
        None => Some(c1),
    }
}


/// A saved token reads back: after saving it for a known channel, the
/// channel's entry holds the token under the channel's field.
pub proof fn law_token_read_back(cfg: JVal, channel: Seq<char>, token: Seq<char>)
    requires
        channel_config_result(cfg, channel, token) is Some,
        token_field(channel) is Some,
    ensures
        jget_path(channel_config_result(cfg, channel, token)->Some_0, seq!["channels"@, channel, token_field(channel)->Some_0])
            == Some(JVal::Str(token)),
{
    let f = token_field(channel)->Some_0;
    let c = if crate::json::jget(cfg, "channels"@) is Some {
        cfg
    } else {
        jset_path(cfg, seq!["channels"@], JVal::Obj(Seq::empty()))->Some_0
    };
    let leaf = JVal::Obj(seq![(f, JVal::Str(token))]);
    law_set_path_read_back(c, seq!["channels"@, channel], leaf);
    let r = channel_config_result(cfg, channel, token)->Some_0;
    let p = seq!["channels"@, channel];
    crate::json::lemma_jget_path_concat(r, p, seq![f]);
    assert(seq!["channels"@, channel, f] =~= p + seq![f]);
    reveal_with_fuel(jget_path, 2);
    crate::json::lemma_find_key(seq![(f, JVal::Str(token))], f);
}

} // verus!
