//! The Stop hook in the settings, which scores each session when it ends.
use crate::json::{
    array_value, as_elements, as_text, copy_value, empty_object, is_null, is_object, json_pretty,
    json_view, member, parse_json, parsed_json, set_member, text_value, to_pretty, views, Json,
};
use crate::text::{chars_of, contains, contains_text};
use serde_json::Value;
use vstd::prelude::*;
use vstd::string::StringExecFns;

verus! {

/// Why the hook was not installed.
#[derive(Debug, Clone, Copy, PartialEq, Eq, Structural)]
pub enum HookError {
    /// The settings, or the hooks in them, are not an object, so nothing can be added to them.
    NotAnObject,
    /// The Stop hooks in the settings are not an array.
    StopNotArray,
    /// The settings could not be written as text.
    Unwritable,
}

/// What installing the hook comes to.
pub enum HookPlan {
    /// The hook is there already.
    AlreadyInstalled,
    /// The settings are to be this text; the hook in them runs this command.
    Write { text: String, command: String },
}

/// An object without members.
pub open spec fn nothing() -> Json {
    Json::Object(Map::empty())
}

/// The value, or another where there is none.
pub open spec fn or_else(v: Option<Json>, other: Json) -> Json {
    match v {
        Some(w) => w,
        None => other,
    }
}

/// The hooks in the settings.
pub open spec fn hooks_in(settings: Json) -> Json {
    or_else(settings.member("hooks"@), nothing())
}

/// The Stop hooks in the settings.
pub open spec fn stop_hooks_in(settings: Json) -> Json {
    or_else(hooks_in(settings).member("Stop"@), Json::Array(Seq::empty()))
}

/// Members can be added to the value: it is an object, or null, which stands for an empty one.
pub open spec fn is_open(v: Json) -> bool {
    v is Object || v is Null
}

/// What is missing of the Stop hooks can be added to the settings.
pub open spec fn takes_hooks(settings: Json) -> bool {
    &&& settings.member("hooks"@) is None ==> is_open(settings)
    &&& hooks_in(settings).member("Stop"@) is None ==> is_open(hooks_in(settings))
}

/// The command that an entry of the hooks runs first.
pub open spec fn command_of(entry: Json) -> Option<Seq<char>> {
    match entry.member("hooks"@) {
        Some(Json::Array(list)) => if list.len() > 0 {
            list[0].text_member("command"@)
        } else {
            None
        },
        _ => None,
    }
}

/// The entry runs this program.
pub open spec fn is_ours(entry: Json) -> bool {
    match command_of(entry) {
        Some(c) => contains_text(c, "session-score-plugin"@),
        None => false,
    }
}

/// One of the Stop hooks runs this program.
pub open spec fn is_installed(settings: Json) -> bool {
    match stop_hooks_in(settings) {
        Json::Array(list) => exists|i: int| 0 <= i < list.len() && is_ours(#[trigger] list[i]),
        _ => false,
    }
}

/// The command as an entry's hook.
pub open spec fn command_hook(command: Seq<char>) -> Json {
    Json::Object(
        Map::empty().insert("type"@, Json::Text("command"@)).insert(
            "command"@,
            Json::Text(command),
        ),
    )
}

/// The entry of the hooks that runs the command.
pub open spec fn entry_for(command: Seq<char>) -> Json {
    Json::Object(
        Map::empty().insert("matcher"@, Json::Text(""@)).insert(
            "hooks"@,
            Json::Array(seq![command_hook(command)]),
        ),
    )
}

/// The settings with an entry behind the Stop hooks that are in them.
pub open spec fn with_hook(settings: Json, entry: Json) -> Json {
    let stop = Json::Array(stop_hooks_in(settings)->Array_0.push(entry));
    let hooks = Json::Object(hooks_in(settings).members().insert("Stop"@, stop));
    Json::Object(settings.members().insert("hooks"@, hooks))
}

/// The entry of the hooks that runs the command.
fn make_entry(command: &str) -> (res: Value)
    ensures
        json_view(res) == entry_for(command@),
{
    let mut hook = empty_object();
    set_member(&mut hook, "type", text_value(String::from_str("command")));
    set_member(&mut hook, "command", text_value(String::from_str(command)));
    let mut list: Vec<Value> = Vec::new();
    list.push(hook);
    let mut entry = empty_object();
    set_member(&mut entry, "matcher", text_value(String::from_str("")));
    assert(views(list@) =~= seq![command_hook(command@)]);
    set_member(&mut entry, "hooks", array_value(list));
    entry
}

/// Whether the entry runs this program.
fn runs_this(entry: &Value) -> (res: bool)
    ensures
        res == is_ours(json_view(*entry)),
{
    match member(entry, "hooks") {
        Some(hooks) => match as_elements(hooks) {
            Some(list) => {
                if list.len() == 0 {
                    return false;
                }
                assert(views(list@)[0] == json_view(list@[0]));
                match member(&list[0], "command") {
                    Some(c) => match as_text(c) {
                        Some(text) => contains(&chars_of(text), "session-score-plugin"),
                        None => false,
                    },
                    None => false,
                }
            },
            None => false,
        },
        None => false,
    }
}

/// Whether one of the entries runs this program.
fn any_runs_this(list: &Vec<Value>) -> (res: bool)
    ensures
        res == exists|i: int| 0 <= i < views(list@).len() && is_ours(#[trigger] views(list@)[i]),
{
    let mut i: usize = 0;
    while i < list.len()
        invariant
            i <= list.len(),
            forall|j: int| 0 <= j < i ==> !is_ours(#[trigger] views(list@)[j]),
        decreases list.len() - i,
    {
        assert(views(list@)[i as int] == json_view(list@[i as int]));
        if runs_this(&list[i]) {
            return true;
        }
        i += 1;
    }
    false
}

/// Copies of the values.
fn copy_list(list: &Vec<Value>) -> (res: Vec<Value>)
    ensures
        views(res@) == views(list@),
{
    let mut out: Vec<Value> = Vec::new();
    let mut i: usize = 0;
    while i < list.len()
        invariant
            i <= list.len(),
            out@.len() == i,
            forall|j: int| 0 <= j < i ==> json_view(#[trigger] out@[j]) == json_view(list@[j]),
        decreases list.len() - i,
    {
        out.push(copy_value(&list[i]));
        i += 1;
    }
    assert(views(out@) =~= views(list@));
    out
}

/// A hook that runs the command was added to the settings; nothing was where this program's hook is
/// there already.
pub open spec fn adds(
    settings: Json,
    command: Seq<char>,
    res: Result<Option<Value>, HookError>,
) -> bool {
    match res {
        Ok(Some(v)) => stop_hooks_in(settings) is Array && !is_installed(settings) && json_view(v)
            == with_hook(settings, entry_for(command)),
        Ok(None) => is_installed(settings),
        Err(e) => e == HookError::StopNotArray && !(stop_hooks_in(settings) is Array),
    }
}

/// The settings with a hook that runs the command; nothing where this program's hook is there
/// already.
pub fn add_hook(settings: &Value, command: &str) -> (res: Result<Option<Value>, HookError>)
    requires
        takes_hooks(json_view(*settings)),
    ensures
        adds(json_view(*settings), command@, res),
{
    let mut hooks = match member(settings, "hooks") {
        Some(h) => copy_value(h),
        None => empty_object(),
    };
    let stop = match member(&hooks, "Stop") {
        Some(s) => copy_value(s),
        None => {
            let none: Vec<Value> = Vec::new();
            assert(views(none@) =~= Seq::empty());
            array_value(none)
        },
    };
    match as_elements(&stop) {
        Some(list) => {
            if any_runs_this(list) {
                return Ok(None);
            }
            let mut longer = copy_list(list);
            let ghost before = views(longer@);
            let entry = make_entry(command);
            longer.push(entry);
            assert(views(longer@) =~= before.push(entry_for(command@)));
            set_member(&mut hooks, "Stop", array_value(longer));
            let mut out = copy_value(settings);
            set_member(&mut out, "hooks", hooks);
            Ok(Some(out))
        },
        None => Err(HookError::StopNotArray),
    }
}

/// The settings that a text holds; empty ones where it is not JSON or there is none.
pub open spec fn settings_in(existing: Option<Seq<char>>) -> Json {
    match existing {
        Some(text) => or_else(parsed_json(text), nothing()),
        None => nothing(),
    }
}

/// The command that scores a session, for the program at this path.
pub open spec fn scoring_command(binary: Seq<char>) -> Seq<char> {
    binary + " auto-score"@
}

/// Whether what is missing of the Stop hooks can be added to the settings.
fn can_take_hooks(settings: &Value) -> (res: bool)
    ensures
        res == takes_hooks(json_view(*settings)),
{
    match member(settings, "hooks") {
        Some(hooks) => match member(hooks, "Stop") {
            Some(_) => true,
            None => is_object(hooks) || is_null(hooks),
        },
        None => is_object(settings) || is_null(settings),
    }
}

/// What is to become of settings that are these, so that the program at `binary` scores each
/// session when it ends.
pub open spec fn plans(
    settings: Json,
    binary: Seq<char>,
    res: Result<HookPlan, HookError>,
) -> bool {
    let added = with_hook(settings, entry_for(scoring_command(binary)));
    if !takes_hooks(settings) {
        res == Err::<HookPlan, HookError>(HookError::NotAnObject)
    } else if !(stop_hooks_in(settings) is Array) {
        res == Err::<HookPlan, HookError>(HookError::StopNotArray)
    } else if is_installed(settings) {
        res == Ok::<HookPlan, HookError>(HookPlan::AlreadyInstalled)
    } else {
        match res {
            Ok(HookPlan::Write { text, command }) => json_pretty(added) == Some(text@) && command@
                == scoring_command(binary),
            Err(HookError::Unwritable) => json_pretty(added) is None,
            _ => false,
        }
    }
}

/// What is to become of the settings, of which `existing` is the text, where there is one, so that
/// the program at `binary` scores each session when it ends.
pub fn install_hook(existing: Option<&str>, binary: &str) -> (res: Result<HookPlan, HookError>)
    ensures
        plans(
            settings_in(
                match existing {
                    Some(text) => Some(text@),
                    None => None,
                },
            ),
            binary@,
            res,
        ),
{
    let settings = match existing {
        Some(text) => match parse_json(text) {
            Some(v) => v,
            None => empty_object(),
        },
        None => empty_object(),
    };
    if !can_take_hooks(&settings) {
        return Err(HookError::NotAnObject);
    }
    let command = String::from_str(binary).concat(" auto-score");
    match add_hook(&settings, command.as_str()) {
        Err(e) => Err(e),
        Ok(None) => Ok(HookPlan::AlreadyInstalled),
        Ok(Some(v)) => match to_pretty(&v) {
            Some(text) => Ok(HookPlan::Write { text, command }),
            None => Err(HookError::Unwritable),
        },
    }
}

// ── Laws ─────────────────────────────────────────────────────────────────────
/// Once a hook is added whose command names this program, it is there: adding it again changes
/// nothing.
pub proof fn law_install_is_idempotent(settings: Json, command: Seq<char>)
    requires
        stop_hooks_in(settings) is Array,
        contains_text(command, "session-score-plugin"@),
    ensures
        is_installed(with_hook(settings, entry_for(command))),
        takes_hooks(with_hook(settings, entry_for(command))),
{
    let entry = entry_for(command);
    let after = with_hook(settings, entry);
    let list = stop_hooks_in(settings)->Array_0;
    assert(stop_hooks_in(after) == Json::Array(list.push(entry)));
    reveal_strlit("matcher");
    reveal_strlit("hooks");
    reveal_strlit("type");
    reveal_strlit("command");
    assert("matcher"@.len() != "hooks"@.len());
    assert("type"@.len() != "command"@.len());
    assert(entry.member("hooks"@) == Some(Json::Array(seq![command_hook(command)])));
    assert(seq![command_hook(command)][0] == command_hook(command));
    let longer = list.push(entry);
    let last = list.len() as int;
    assert(longer[last] == entry);
    assert(stop_hooks_in(after)->Array_0 =~= longer);
    assert(is_ours(stop_hooks_in(after)->Array_0[last]));
}

/// Adding a hook keeps every other setting, every other hook, and the Stop hooks that were there,
/// in their order.
pub proof fn law_install_keeps_the_rest(settings: Json, entry: Json, key: Seq<char>, i: int)
    requires
        stop_hooks_in(settings) is Array,
    ensures
        key != "hooks"@ ==> with_hook(settings, entry).member(key) == settings.member(key),
        key != "Stop"@ ==> hooks_in(with_hook(settings, entry)).member(key) == hooks_in(
            settings,
        ).member(key),
        stop_hooks_in(with_hook(settings, entry)) is Array,
        stop_hooks_in(with_hook(settings, entry))->Array_0.len() == stop_hooks_in(
            settings,
        )->Array_0.len() + 1,
        0 <= i < stop_hooks_in(settings)->Array_0.len() ==> stop_hooks_in(
            with_hook(settings, entry),
        )->Array_0[i] == stop_hooks_in(settings)->Array_0[i],
        stop_hooks_in(with_hook(settings, entry))->Array_0.last() == entry,
{
    let list = stop_hooks_in(settings)->Array_0;
    assert(stop_hooks_in(with_hook(settings, entry)) == Json::Array(list.push(entry)));
}

/// The command is the path of the program and `auto-score`.
pub proof fn law_scoring_command(binary: Seq<char>)
    ensures
        scoring_command(binary) == binary + " auto-score"@,
{
}

/// The entry that is added runs the command first, for any matcher, and is ours just where the
/// command names this program.
pub proof fn law_added_entry(command: Seq<char>)
    ensures
        entry_for(command).text_member("matcher"@) == Some(""@),
        entry_for(command).member("hooks"@) is Some,
        entry_for(command).member("hooks"@)->0 is Array,
        (entry_for(command).member("hooks"@)->0)->Array_0.len() == 1,
        (entry_for(command).member("hooks"@)->0)->Array_0[0].text_member("type"@) == Some(
            "command"@,
        ),
        (entry_for(command).member("hooks"@)->0)->Array_0[0].text_member("command"@) == Some(
            command,
        ),
        command_of(entry_for(command)) == Some(command),
        is_ours(entry_for(command)) == contains_text(command, "session-score-plugin"@),
{
    reveal_strlit("matcher");
    reveal_strlit("hooks");
    reveal_strlit("type");
    reveal_strlit("command");
    assert("matcher"@.len() != "hooks"@.len());
    assert("type"@.len() != "command"@.len());
    assert(entry_for(command).member("hooks"@) == Some(
        Json::Array(seq![command_hook(command)]),
    ));
    assert(seq![command_hook(command)][0] == command_hook(command));
}

/// The Stop hooks are the member `Stop` of the member `hooks`; where one of these is missing there
/// are none.
pub proof fn law_stop_hooks(settings: Json, hooks: Json)
    requires
        settings.member("hooks"@) == Some(hooks),
    ensures
        hooks.member("Stop"@) matches Some(stop) ==> stop_hooks_in(settings) == stop,
        hooks.member("Stop"@) is None ==> stop_hooks_in(settings) == Json::Array(Seq::empty()),
        hooks_in(settings) == hooks,
{
}

/// Settings without hooks have no Stop hooks, and take some where they are an object or null.
pub proof fn law_settings_without_hooks(settings: Json)
    requires
        settings.member("hooks"@) is None,
    ensures
        stop_hooks_in(settings) == Json::Array(Seq::empty()),
        !is_installed(settings),
        takes_hooks(settings) == (settings is Object || settings is Null),
{
}

/// Settings with hooks take another where these are an object or null, or have Stop hooks.
pub proof fn law_settings_with_hooks(settings: Json, hooks: Json)
    requires
        settings.member("hooks"@) == Some(hooks),
    ensures
        takes_hooks(settings) == (hooks.member("Stop"@) is Some || hooks is Object || hooks
            is Null),
{
}

/// The entry first runs this command.
pub open spec fn first_runs(entry: Json, command: Seq<char>) -> bool {
    match entry.member("hooks"@) {
        Some(Json::Array(hooks)) => hooks.len() > 0 && hooks[0].member("command"@) == Some(
            Json::Text(command),
        ),
        _ => false,
    }
}

/// The hook is installed just where one of the Stop hooks first runs a command that names this
/// program.
pub proof fn law_installed(settings: Json, list: Seq<Json>)
    requires
        stop_hooks_in(settings) == Json::Array(list),
    ensures
        is_installed(settings) == exists|i: int, command: Seq<char>|
            0 <= i < list.len() && #[trigger] first_runs(list[i], command) && contains_text(
                command,
                "session-score-plugin"@,
            ),
{
    if is_installed(settings) {
        let i = choose|i: int| 0 <= i < list.len() && is_ours(#[trigger] list[i]);
        assert(is_ours(list[i]));
        let command = command_of(list[i])->0;
        assert(list[i].member("hooks"@) is Some);
        assert(first_runs(list[i], command));
    }
    if exists|i: int, command: Seq<char>|
        0 <= i < list.len() && #[trigger] first_runs(list[i], command) && contains_text(
            command,
            "session-score-plugin"@,
        ) {
        let (i, command) = choose|i: int, command: Seq<char>|
            0 <= i < list.len() && #[trigger] first_runs(list[i], command) && contains_text(
                command,
                "session-score-plugin"@,
            );
        assert(command_of(list[i]) == Some(command));
        assert(is_ours(stop_hooks_in(settings)->Array_0[i]));
    }
}

/// The settings are those in the text, where it is JSON, and empty ones else.
pub proof fn law_settings_in(text: Seq<char>)
    ensures
        settings_in(None) == Json::Object(Map::empty()),
        parsed_json(text) is None ==> settings_in(Some(text)) == Json::Object(Map::empty()),
        parsed_json(text) matches Some(v) ==> settings_in(Some(text)) == v,
{
}

/// Settings that hold the hook are left alone, those that cannot take one are refused. To any
/// other one entry is added behind the Stop hooks, and what is written is the settings with it.
pub proof fn law_plans(settings: Json, binary: Seq<char>, res: Result<HookPlan, HookError>)
    requires
        plans(settings, binary, res),
    ensures
        (res matches Err(HookError::NotAnObject)) == !takes_hooks(settings),
        (res matches Err(HookError::StopNotArray)) == (takes_hooks(settings) && !(stop_hooks_in(
            settings,
        ) is Array)),
        (res matches Ok(HookPlan::AlreadyInstalled)) == (takes_hooks(settings) && stop_hooks_in(
            settings,
        ) is Array && is_installed(settings)),
        res matches Ok(HookPlan::Write { text, command }) ==> {
            &&& command@ == binary + " auto-score"@
            &&& json_pretty(with_hook(settings, entry_for(command@))) == Some(text@)
            &&& stop_hooks_in(with_hook(settings, entry_for(command@))) == Json::Array(
                stop_hooks_in(settings)->Array_0.push(entry_for(command@)),
            )
        },
        res matches Err(HookError::Unwritable) ==> json_pretty(
            with_hook(settings, entry_for(binary + " auto-score"@)),
        ) is None,
{
    if res is Ok && res->Ok_0 is Write {
        let entry = entry_for(scoring_command(binary));
        let list = stop_hooks_in(settings)->Array_0;
        assert(stop_hooks_in(with_hook(settings, entry)) == Json::Array(list.push(entry)));
    }
}

/// Stop hooks that are no list are refused. Otherwise, where none is this program's, the entry for
/// the command is put behind them; where one is, nothing changes.
pub proof fn law_adding(
    settings: Json,
    command: Seq<char>,
    list: Seq<Json>,
    res: Result<Option<Value>, HookError>,
)
    requires
        adds(settings, command, res),
    ensures
        !(stop_hooks_in(settings) is Array) && !is_installed(settings) ==> res == Err::<
            Option<Value>,
            HookError,
        >(HookError::StopNotArray),
        stop_hooks_in(settings) == Json::Array(list) && is_installed(settings) ==> res == Ok::<
            Option<Value>,
            HookError,
        >(None),
        stop_hooks_in(settings) == Json::Array(list) && !is_installed(settings) ==> {
            &&& res matches Ok(Some(v))
            &&& stop_hooks_in(json_view(v)) == Json::Array(list.push(entry_for(command)))
        },
{
    if stop_hooks_in(settings) == Json::Array(list) && !is_installed(settings) {
        let entry = entry_for(command);
        assert(stop_hooks_in(with_hook(settings, entry)) == Json::Array(list.push(entry)));
    }
}

} // verus!
