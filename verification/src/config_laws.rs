//! What settings, paths, targets and the printed output of an answer are for.

use crate::cli::{OutputFormat, format_name};
use crate::config::{
    AppConfig, ModelConfig, ProviderConfig, ProviderView, SecretsConfig, Settings, base_dir,
    bool_name, bool_of, config_issues, expanded, format_of, header_map, joined_path,
    model_issues, provider_issues, rounds_of, setting_text, with_setting,
};
use crate::error::{EXIT_AUTH, Failure};
use crate::json::{JsonView, law_field_read_back, parsed_json};
use crate::markdown_laws::lemma_tag_found;
use crate::panels::Selection;
use crate::table::Table;
use crate::target::{
    env_key, key_of, model_place, model_under, param_value, params_of, question_target,
    stored_key, use_target,
};
use crate::text::{
    contains_text, decimal, is_blank, law_contained_text_stands_somewhere,
    law_decimal_reads_back, matches_at, opt_text, split_once_spec, trimmed,
};
use vstd::prelude::*;

verus! {

/// The words for on and off are understood, and no other ones.
pub proof fn law_switch_is_understood(s: Seq<char>)
    ensures
        s == "1"@ || s == "true"@ || s == "yes"@ || s == "on"@ ==> bool_of(s) == Ok::<bool, Failure>(
            true,
        ),
        s == "0"@ || s == "false"@ || s == "no"@ || s == "off"@ ==> bool_of(s) == Ok::<
            bool,
            Failure,
        >(false),
        bool_of(s) == Ok::<bool, Failure>(true) ==> s == "1"@ || s == "true"@ || s == "yes"@ || s
            == "on"@,
        bool_of(s) == Ok::<bool, Failure>(false) ==> s == "0"@ || s == "false"@ || s == "no"@ || s
            == "off"@,
        bool_of(bool_name(true)) == Ok::<bool, Failure>(true),
        bool_of(bool_name(false)) == Ok::<bool, Failure>(false),
{
    reveal_strlit("1");
    reveal_strlit("true");
    reveal_strlit("yes");
    reveal_strlit("on");
    reveal_strlit("0");
    reveal_strlit("false");
    reveal_strlit("no");
    reveal_strlit("off");
    let on = seq!["1", "true", "yes", "on"];
    let off = seq!["0", "false", "no", "off"];
    assert(on[0]@ == "1"@ && on[1]@ == "true"@ && on[2]@ == "yes"@ && on[3]@ == "on"@);
    assert(off[0]@ == "0"@ && off[1]@ == "false"@ && off[2]@ == "no"@ && off[3]@ == "off"@);
    assert("0"@[0] == '0' && "1"@[0] == '1' && "true"@[0] == 't' && "yes"@[0] == 'y' && "on"@[1]
        == 'n' && "false"@[0] == 'f' && "no"@[0] == 'n' && "on"@[0] == 'o' && "off"@[0] == 'o');
    assert("1"@.len() == 1 && "0"@.len() == 1 && "true"@.len() == 4 && "false"@.len() == 5
        && "yes"@.len() == 3 && "off"@.len() == 3 && "on"@.len() == 2 && "no"@.len() == 2);
}

/// The name of an output format is read as that format.
pub proof fn law_format_name_is_read(f: OutputFormat)
    ensures
        format_of(format_name(f)) == Ok::<OutputFormat, Failure>(f),
{
    reveal_strlit("line");
    reveal_strlit("text");
    reveal_strlit("json");
    reveal_strlit("ndjson");
    assert("line"@[0] == 'l' && "text"@[0] == 't' && "json"@[0] == 'j' && "ndjson"@.len() == 6
        && "line"@.len() == 4 && "text"@.len() == 4 && "json"@.len() == 4);
}

/// A number of rounds is read as it is written; zero is refused.
pub proof fn law_rounds_are_read(n: u32)
    ensures
        n > 0 ==> rounds_of(decimal(n as nat)) == Ok::<u32, Failure>(n),
        rounds_of(decimal(0)) is Err,
{
    law_decimal_reads_back(n as nat, u32::MAX as nat);
    law_decimal_reads_back(0, u32::MAX as nat);
}

/// What each setting is called, and what it is where nothing was set.
#[verifier::rlimit(40)]
pub proof fn law_settings_by_name(st: Settings, t: Seq<char>, b: bool, n: u32)
    ensures
        st.provider == Some(t) ==> setting_text(st, "defaults.provider"@) == Ok::<
            Seq<char>,
            Failure,
        >(t),
        st.model == Some(t) ==> setting_text(st, "defaults.model"@) == Ok::<Seq<char>, Failure>(t),
        st.mode == Some(t) ==> setting_text(st, "defaults.mode"@) == Ok::<Seq<char>, Failure>(t),
        st.auto_create == Some(b) ==> setting_text(st, "defaults.auto_create_session"@) == Ok::<
            Seq<char>,
            Failure,
        >(bool_name(b)),
        st.auto_save == Some(b) ==> setting_text(st, "defaults.auto_save_session"@) == Ok::<
            Seq<char>,
            Failure,
        >(bool_name(b)),
        st.tools == Some(b) ==> setting_text(st, "defaults.tools"@) == Ok::<Seq<char>, Failure>(
            bool_name(b),
        ),
        st.collapse == Some(b) ==> setting_text(st, "defaults.collapse_thinking"@) == Ok::<
            Seq<char>,
            Failure,
        >(bool_name(b)),
        st.dir == Some(t) ==> setting_text(st, "session.dir"@) == Ok::<Seq<char>, Failure>(t),
        st.max_rounds == Some(n) ==> setting_text(st, "tools.max_rounds"@) == Ok::<
            Seq<char>,
            Failure,
        >(decimal(n as nat)),
        st.progressive == Some(b) ==> setting_text(st, "tools.progressive_loading"@) == Ok::<
            Seq<char>,
            Failure,
        >(bool_name(b)),
        st.audit == Some(b) ==> setting_text(st, "audit.enabled"@) == Ok::<Seq<char>, Failure>(
            bool_name(b),
        ),
        st.audit_model == Some(t) ==> setting_text(st, "audit.model"@) == Ok::<Seq<char>, Failure>(
            t,
        ),
        with_setting(st, "defaults.provider"@, t) matches Ok(s) && s.provider == Some(t),
        with_setting(st, "defaults.model"@, t) matches Ok(s) && s.model == Some(t),
        with_setting(st, "session.dir"@, t) matches Ok(s) && s.dir == Some(t),
        with_setting(st, "defaults.tools"@, bool_name(b)) matches Ok(s) && s.tools == Some(b),
        with_setting(st, "audit.enabled"@, bool_name(b)) matches Ok(s) && s.audit == Some(b),
        n > 0 ==> (with_setting(st, "tools.max_rounds"@, decimal(n as nat)) matches Ok(s)
            && s.max_rounds == Some(n)),
        !is_blank(t) ==> (with_setting(st, "audit.model"@, t) matches Ok(s) && s.audit_model
            == Some(t)),
        !is_blank(t) ==> (with_setting(st, "audit.bash_prompt_file"@, t) matches Ok(s)
            && s.bash_prompt == Some(trimmed(t))),
        !is_blank(t) ==> (with_setting(st, "audit.edit_prompt_file"@, t) matches Ok(s)
            && s.edit_prompt == Some(trimmed(t))),
{
    lemma_setting_names();
    law_switch_is_understood(bool_name(b));
    law_rounds_are_read(n);
}

proof fn lemma_setting_names()
    ensures
        "defaults.provider"@.len() == 17,
        "defaults.model"@.len() == 14,
        "defaults.mode"@.len() == 13,
        "defaults.output"@.len() == 15,
        "defaults.auto_create_session"@.len() == 28,
        "defaults.auto_save_session"@.len() == 26,
        "defaults.tools"@.len() == 14,
        "defaults.tools"@[9] == 't',
        "defaults.model"@[9] == 'm',
        "defaults.system_prompt_file"@.len() == 27,
        "defaults.system_prompt_file"@[9] == 's',
        "defaults.system_prompt_mode"@.len() == 27,
        "defaults.system_prompt_mode"@[23] == 'm',
        "defaults.system_prompt_file"@[23] == 'f',
        "defaults.collapse_thinking"@.len() == 26,
        "defaults.collapse_thinking"@[9] == 'c',
        "defaults.auto_save_session"@[9] == 'a',
        "session.store_format"@.len() == 20,
        "session.dir"@.len() == 11,
        "session.dir"@[0] == 's',
        "tools.max_rounds"@.len() == 16,
        "tools.progressive_loading"@.len() == 25,
        "audit.enabled"@.len() == 13,
        "audit.enabled"@[0] == 'a',
        "defaults.mode"@[0] == 'd',
        "audit.model"@.len() == 11,
        "audit.model"@[0] == 'a',
        "audit.default_prompt_file"@.len() == 25,
        "audit.default_prompt_file"@[0] == 'a',
        "tools.progressive_loading"@[0] == 't',
        "audit.bash_prompt_file"@.len() == 22,
        "audit.bash_prompt_file"@[6] == 'b',
        "audit.edit_prompt_file"@.len() == 22,
        "audit.edit_prompt_file"@[6] == 'e',
        "skills.paths"@.len() == 12,
{
    reveal_strlit("defaults.provider");
    reveal_strlit("defaults.model");
    reveal_strlit("defaults.mode");
    reveal_strlit("defaults.output");
    reveal_strlit("defaults.auto_create_session");
    reveal_strlit("defaults.auto_save_session");
    reveal_strlit("defaults.tools");
    reveal_strlit("defaults.system_prompt_file");
    reveal_strlit("defaults.system_prompt_mode");
    reveal_strlit("defaults.collapse_thinking");
    reveal_strlit("session.store_format");
    reveal_strlit("session.dir");
    reveal_strlit("tools.max_rounds");
    reveal_strlit("tools.progressive_loading");
    reveal_strlit("audit.enabled");
    reveal_strlit("audit.model");
    reveal_strlit("audit.default_prompt_file");
    reveal_strlit("audit.bash_prompt_file");
    reveal_strlit("audit.edit_prompt_file");
    reveal_strlit("skills.paths");
}

/// A path below another one ends with it and starts with the other one; one that starts at the
/// root stands for itself.
pub proof fn law_path_is_joined(base: Seq<char>, rest: Seq<char>)
    ensures
        rest.is_suffix_of(joined_path(base, rest)),
        rest.len() > 0 && rest[0] == '/' ==> joined_path(base, rest) == rest,
        base.len() > 0 && !(rest.len() > 0 && rest[0] == '/') ==> base.is_prefix_of(
            joined_path(base, rest),
        ),
        base.len() > 0 && base.last() != '/' && !(rest.len() > 0 && rest[0] == '/')
            ==> joined_path(base, rest) == base + seq!['/'] + rest,
        base.len() > 0 && base.last() == '/' && !(rest.len() > 0 && rest[0] == '/')
            ==> joined_path(base, rest) == base + rest,
{
    reveal_strlit("/");
    assert("/"@ =~= seq!['/']);
}

/// A path below the home of the user is one below the directory that it stands for, and every
/// other one stays as it is.
pub proof fn law_home_is_filled_in(rest: Seq<char>, home: Seq<char>, path: Seq<char>)
    ensures
        expanded("~/"@ + rest, Some(home)) == joined_path(home, rest),
        expanded(path, None) == path,
        !"~/"@.is_prefix_of(path) ==> expanded(path, Some(home)) == path,
{
    assert("~/"@.is_prefix_of("~/"@ + rest));
    assert(("~/"@ + rest).skip("~/"@.len() as int) =~= rest);
}

/// The directory of the program is the one asked for, else one below that of the environment, else
/// one below the home of the user.
pub proof fn law_directory_is_chosen(
    wanted: Seq<char>,
    variable: Seq<char>,
    other: Option<Seq<char>>,
    home: Seq<char>,
    below: Seq<char>,
)
    requires
        variable.len() > 0,
        variable.last() != '/',
        home.len() > 0,
        home.last() != '/',
        below.len() > 0,
        below[0] != '/',
        below.last() != '/',
    ensures
        base_dir(Some(wanted), other, home, below) == wanted,
        base_dir(None, Some(variable), home, below) == variable + seq!['/'] + "chat-cli"@,
        base_dir(None, None, home, below) == home + seq!['/'] + below + seq!['/'] + "chat-cli"@,
{
    reveal_strlit("chat-cli");
    law_path_is_joined(variable, "chat-cli"@);
    law_path_is_joined(home, below);
    let own = joined_path(home, below);
    assert(own.last() == below.last());
    law_path_is_joined(own, "chat-cli"@);
}

/// A configuration without faults names only providers and models that there are, each model under
/// its own provider, and providers of known kinds only; and every such configuration is without
/// faults.
pub proof fn law_faults_are_found(c: AppConfig)
    requires
        c.wf(),
    ensures
        config_issues(c).len() == 0 <==> {
            &&& c.defaults.provider matches Some(p) ==> c.providers.has(p@)
            &&& c.defaults.model matches Some(m) ==> (c.models.lookup(m@) matches Some(model) && (
            c.defaults.provider matches Some(p) ==> model.provider@ == p@))
            &&& forall|i: int|
                0 <= i < c.providers.keys().len() ==> (#[trigger] c.providers.values()[i]).kind@
                    == "openai_compatible"@ || c.providers.values()[i].kind@ == "anthropic"@
                    || c.providers.values()[i].kind@ == "ollama"@
            &&& forall|i: int|
                0 <= i < c.models.keys().len() ==> c.providers.has(
                    (#[trigger] c.models.values()[i]).provider@,
                )
            &&& c.audit.model matches Some(m) ==> is_blank(m@) || c.models.has(m@)
        },
{
    lemma_provider_faults(c, c.providers.keys().len() as int);
    lemma_model_faults(c, c.models.keys().len() as int);
}

proof fn lemma_provider_faults(c: AppConfig, n: int)
    requires
        0 <= n <= c.providers.keys().len(),
    ensures
        provider_issues(c, n).len() == 0 <==> forall|i: int|
            0 <= i < n ==> (#[trigger] c.providers.values()[i]).kind@ == "openai_compatible"@
                || c.providers.values()[i].kind@ == "anthropic"@ || c.providers.values()[i].kind@
                == "ollama"@,
    decreases n,
{
    if n > 0 {
        lemma_provider_faults(c, n - 1);
    }
}

proof fn lemma_model_faults(c: AppConfig, n: int)
    requires
        0 <= n <= c.models.keys().len(),
    ensures
        model_issues(c, n).len() == 0 <==> forall|i: int|
            0 <= i < n ==> c.providers.has((#[trigger] c.models.values()[i]).provider@),
    decreases n,
{
    if n > 0 {
        lemma_model_faults(c, n - 1);
    }
}

/// A header is read from what stands on the two sides of its equals sign, trimmed; a later one of
/// the same name counts, and others stay.
pub proof fn law_header_is_read(v: Seq<Seq<char>>, key: Seq<char>, value: Seq<char>)
    requires
        header_map(v) is Ok,
        !key.contains('='),
    ensures
        ({
            let before = header_map(v)->Ok_0;
            header_map(v.push(key + seq!['='] + value)) matches Ok(m) && m.contains_key(
                trimmed(key),
            ) && m[trimmed(key)] == trimmed(value) && (forall|k: Seq<char>|
                k != trimmed(key) ==> #[trigger] m.contains_key(k) == before.contains_key(k)) && (
            forall|k: Seq<char>|
                k != trimmed(key) && before.contains_key(k) ==> #[trigger] m[k] == before[k])
        }),
        header_map(v.push(key)) is Err,
{
    lemma_cut_at_equals(key, value);
    let item = key + seq!['='] + value;
    assert(v.push(item).drop_last() =~= v);
    assert(v.push(key).drop_last() =~= v);
}

proof fn lemma_cut_at_equals(key: Seq<char>, value: Seq<char>)
    requires
        !key.contains('='),
    ensures
        split_once_spec(key + seq!['='] + value, "="@) == Some((key, value)),
        split_once_spec(key, "="@) is None,
{
    reveal_strlit("=");
    assert("="@ =~= seq!['=']);
    law_contained_text_stands_somewhere(key, "="@);
    assert(!contains_text(key, "="@)) by {
        if contains_text(key, "="@) {
            let i = choose|i: int| matches_at(key, "="@, i);
            assert(key.subrange(i, i + 1)[0] == '=');
            assert(key[i] == '=');
        }
    }
    lemma_tag_found(key, "="@, value);
}

/// A parameter is what its text reads as, or its text, under its name; a later one of the same
/// name counts, and others stay.
pub proof fn law_param_is_read(v: Seq<Seq<char>>, key: Seq<char>, raw: Seq<char>, other: Seq<char>)
    requires
        params_of(v) is Ok,
        !key.contains('='),
    ensures
        params_of(v.push(key + seq!['='] + raw)) matches Ok(f) && {
            &&& JsonView::Object(f).at(key) == match parsed_json(raw) {
                Ok(j) => j,
                Err(_) => JsonView::Str(raw),
            }
            &&& other != key ==> JsonView::Object(f).at(other) == JsonView::Object(
                params_of(v)->Ok_0,
            ).at(other)
        },
        params_of(v.push(key)) is Err,
{
    lemma_cut_at_equals(key, raw);
    let item = key + seq!['='] + raw;
    assert(v.push(item).drop_last() =~= v);
    assert(v.push(key).drop_last() =~= v);
    law_field_read_back(
        params_of(v)->Ok_0,
        key,
        param_value(raw, parsed_json(raw)),
        other,
    );
}

/// A question goes to the provider and the model that it asks for, else to those that are set.
pub proof fn law_question_goes_where_asked(c: AppConfig, cli: Selection)
    ensures
        question_target(c, cli) matches Ok((provider, model)) ==> {
            &&& cli.provider matches Some(p) ==> provider == p@
            &&& cli.provider is None ==> opt_text(c.defaults.provider) == Some(provider)
            &&& cli.model matches Some(m) ==> model == m@
            &&& cli.model is None && c.defaults.model is Some ==> opt_text(c.defaults.model)
                == Some(model)
            &&& cli.model is None && c.defaults.model is None ==> opt_text(
                c.providers.lookup(provider)->Some_0.default_model,
            ) == Some(model)
        },
        cli.provider is None && c.defaults.provider is None ==> question_target(c, cli) is Err,
{
}

/// A model is used by its own name, or by that of its provider and its remote or own name.
pub proof fn law_model_is_used_by_name(c: AppConfig, i: int)
    requires
        c.wf(),
        0 <= i < c.models.keys().len(),
        !c.models.keys()[i].contains('/'),
    ensures
        use_target(c, c.models.keys()[i]) == Ok::<(Seq<char>, Seq<char>), Failure>(
            (c.models.values()[i].provider@, c.models.keys()[i]),
        ),
        use_target(c, c.models.keys()[i]) is Ok,
{
    let key = c.models.keys()[i];
    reveal_strlit("/");
    assert("/"@ =~= seq!['/']);
    law_contained_text_stands_somewhere(key, "/"@);
    assert(!contains_text(key, "/"@)) by {
        if contains_text(key, "/"@) {
            let k = choose|k: int| matches_at(key, "/"@, k);
            assert(key.subrange(k, k + 1)[0] == '/');
            assert(key[k] == '/');
        }
    }
    c.models.lemma_place(key, i);
}

/// What is found under a provider is a model of that provider with the given name.
pub proof fn law_model_under_provider(
    c: AppConfig,
    p: ProviderConfig,
    provider: Seq<char>,
    name: Seq<char>,
)
    ensures
        model_under(c, p, provider, name) matches Some(id) ==> (exists|i: int|
            0 <= i < c.models.keys().len() && c.models.keys()[i] == id && (
            #[trigger] c.models.values()[i]).provider@ == provider && (
            c.models.values()[i].remote_name@ == name || id == name)) || (id == name && opt_text(
            p.default_model,
        ) == Some(name)),
        (exists|i: int|
            0 <= i < c.models.keys().len() && (#[trigger] c.models.values()[i]).provider@
                == provider && c.models.values()[i].remote_name@ == name) ==> model_under(
            c,
            p,
            provider,
            name,
        ) is Some,
{
    lemma_model_place(c.models, provider, name, true, 0);
    lemma_model_place(c.models, provider, name, false, 0);
}

proof fn lemma_model_place(
    t: Table<ModelConfig>,
    provider: Seq<char>,
    name: Seq<char>,
    remote: bool,
    i: int,
)
    requires
        0 <= i,
    ensures
        match model_place(t, provider, name, remote, i) {
            Some(k) => i <= k < t.keys().len() && t.values()[k].provider@ == provider && (if remote {
                t.values()[k].remote_name@
            } else {
                t.keys()[k]
            }) == name,
            None => forall|k: int|
                i <= k < t.keys().len() ==> (#[trigger] t.values()[k]).provider@ != provider || (
                if remote {
                    t.values()[k].remote_name@
                } else {
                    t.keys()[k]
                }) != name,
        },
    decreases t.keys().len() - i,
{
    if i < t.keys().len() {
        lemma_model_place(t, provider, name, remote, i + 1);
    }
}

/// A stored key is used where the environment has none, and only a provider on this machine does
/// without one.
pub proof fn law_key_is_found(
    id: Seq<char>,
    p: ProviderView,
    secrets: SecretsConfig,
    env: Table<String>,
    key: Seq<char>,
)
    requires
        env_key(p, env) is None,
    ensures
        stored_key(id, secrets) == Some(key) && !is_blank(key) ==> key_of(id, p, secrets, env)
            == Ok::<Seq<char>, Failure>(key),
        stored_key(id, secrets) is None && p.kind == "anthropic"@ ==> (key_of(id, p, secrets, env)
            matches Err(e) && e.code == EXIT_AUTH),
        stored_key(id, secrets) is None && p.kind == "ollama"@ ==> key_of(id, p, secrets, env)
            == Ok::<Seq<char>, Failure>(Seq::empty()),
{
    reveal_strlit("anthropic");
    reveal_strlit("ollama");
    reveal_strlit("openai_compatible");
    assert("anthropic"@.len() == 9 && "ollama"@.len() == 6 && "openai_compatible"@.len() == 17);
}

} // verus!
