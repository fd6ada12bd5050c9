//! Settings that come from the environment.
use crate::text::{opt_text, parse_usize, parsed_usize, trim, trimmed};
use vstd::prelude::*;

verus! {

/// The window that a setting asks for, in user turns: the number that it writes,
/// and ten where there is no setting or it writes none.
pub open spec fn window_setting(value: Option<Seq<char>>) -> usize {
    match value {
        Some(text) => match parsed_usize(trimmed(text)) {
            Some(turns) => turns,
            None => 10,
        },
        None => 10,
    }
}

/// The window that the setting `value` asks for.
pub fn dedup_window(value: Option<String>) -> (r: usize)
    ensures
        r == window_setting(opt_text(value)),
{
    match value {
        Some(text) => match parse_usize(trim(text.as_str())) {
            Some(turns) => turns,
            None => 10,
        },
        None => 10,
    }
}

/// The key, the base address and the name of the model, with the model that is
/// taken where none is named.
pub fn load_openai_config(
    api_key: String,
    api_base: Option<String>,
    model_name: Option<String>,
) -> (r: (String, Option<String>, String))
    ensures
        r.0 == api_key,
        r.1 == api_base,
        r.2@ == (match model_name {
            Some(name) => name@,
            None => "mimo-v2.5-pro"@,
        }),
{
    let model_name = match model_name {
        Some(name) => name,
        None => "mimo-v2.5-pro".to_owned(),
    };
    (api_key, api_base, model_name)
}

/// The window is the number that the setting writes, with or without white space
/// around it, and ten where there is no setting or none is written there.
pub proof fn law_dedup_window(
    value: Option<String>,
    text: &str,
    bare: &str,
    number: Option<usize>,
    r: usize,
)
    requires
        call_ensures(dedup_window, (value,), r),
        value matches Some(setting) ==> setting@ == text@,
        call_ensures(trim, (text,), bare),
        call_ensures(parse_usize, (bare,), number),
    ensures
        value is None ==> r == 10,
        value is Some ==> r == (match number {
            Some(turns) => turns,
            None => 10,
        }),
{
}

/// Each setting of the model is taken as it is; only the name may be missing.
pub proof fn law_load_openai_config(
    api_key: String,
    api_base: Option<String>,
    model_name: Option<String>,
    r: (String, Option<String>, String),
)
    requires
        call_ensures(load_openai_config, (api_key, api_base, model_name), r),
    ensures
        r.0@ == api_key@,
        opt_text(r.1) == opt_text(api_base),
        model_name matches Some(name) ==> r.2@ == name@,
        model_name is None ==> r.2@ == "mimo-v2.5-pro"@,
{
}

} // verus!
