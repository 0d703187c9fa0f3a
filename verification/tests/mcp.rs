//! The tool server's view of the command line: which commands are tools, what
//! they are called, and the argument vector a call becomes.

use dimetric::agent::mcp::{find_tool, route, tools_from, ArgInfo, ArgValue, CommandInfo, Route, Tool};

fn arg(id: &str, long: Option<&str>, switch: bool, required: bool) -> ArgInfo {
    ArgInfo {
        id: id.into(),
        long: long.map(str::to_string),
        switch,
        max_values: if switch { Some(0) } else { Some(1) },
        required,
        help: None,
    }
}

fn command(path: &[&str], has_subcommands: bool, args: Vec<ArgInfo>) -> CommandInfo {
    CommandInfo {
        path: path.iter().map(|w| w.to_string()).collect(),
        about: None,
        has_subcommands,
        args,
    }
}

fn globals() -> Vec<ArgInfo> {
    vec![
        arg("project", Some("project"), false, false),
        arg("scene", Some("scene"), false, false),
        arg("help", Some("help"), true, false),
    ]
}

/// A command line shaped like the real one: groups, leaves, the server, and
/// the help commands a built command line adds.
fn commands() -> Vec<CommandInfo> {
    let mut query = globals();
    query.push(arg("path", None, false, true));
    let mut run = globals();
    run.push(arg("headless", Some("headless"), true, false));
    run.push(arg("ticks", Some("ticks"), false, false));
    vec![
        command(&["scene"], true, globals()),
        command(&["scene", "tree"], false, globals()),
        command(&["scene", "query"], false, query),
        command(&["scene", "help"], false, vec![]),
        command(&["tile"], true, globals()),
        command(&["tile", "import-ldtk"], false, globals()),
        command(&["run"], false, run),
        command(&["mcp"], false, globals()),
        command(&["help"], false, vec![]),
    ]
}

fn tool<'a>(tools: &'a [Tool], name: &str) -> &'a Tool {
    find_tool(tools, name).expect("the tool is there")
}

#[test]
fn the_server_is_not_one_of_its_own_tools() {
    let tools = tools_from(&commands());
    assert!(!tools.iter().any(|t| t.name == "mcp"));
}

#[test]
fn the_tools_are_the_leaf_commands_in_name_order() {
    let tools = tools_from(&commands());
    let names: Vec<&str> = tools.iter().map(|t| t.name.as_str()).collect();
    assert_eq!(names, ["run", "scene_query", "scene_tree", "tile_import_ldtk"]);
}

#[test]
fn a_tool_without_a_description_is_described_by_its_command() {
    let tools = tools_from(&commands());
    assert_eq!(tool(&tools, "tile_import_ldtk").summary, "dim tile import-ldtk");
    let mut described = command(&["build"], false, vec![]);
    described.about = Some("Package the game".into());
    let tools = tools_from(&vec![described]);
    assert_eq!(tools[0].summary, "Package the game");
}

#[test]
fn the_help_switch_is_not_a_parameter() {
    let tools = tools_from(&commands());
    let names: Vec<&str> = tool(&tools, "scene_tree").params.iter().map(|p| p.name.as_str()).collect();
    assert_eq!(names, ["project", "scene"]);
    assert_eq!(tool(&tools, "scene_tree").params[0].flag.as_deref(), Some("--project"));
}

#[test]
fn a_call_becomes_the_command_line_a_shell_would_have_typed() {
    let tools = tools_from(&commands());
    let run = tool(&tools, "run");
    let given = vec![
        ("headless".to_string(), ArgValue::Bool(true)),
        ("project".to_string(), ArgValue::Text("game".into())),
        ("ticks".to_string(), ArgValue::Other("30".into())),
    ];
    let argv = run.argv(&given).expect("a good call");
    assert_eq!(argv, ["dim", "run", "--project", "game", "--headless", "--ticks", "30"]);
}

#[test]
fn a_false_switch_is_simply_absent_and_a_list_repeats_its_flag() {
    let tools = tools_from(&commands());
    let run = tool(&tools, "run");
    let given = vec![
        ("headless".to_string(), ArgValue::Bool(false)),
        (
            "ticks".to_string(),
            ArgValue::List(vec![ArgValue::Other("1".into()), ArgValue::Null, ArgValue::Text("2".into())]),
        ),
    ];
    let argv = run.argv(&given).expect("a good call");
    assert_eq!(argv, ["dim", "run", "--ticks", "1", "--ticks", "2"]);
}

#[test]
fn a_positional_goes_in_without_a_flag() {
    let tools = tools_from(&commands());
    let query = tool(&tools, "scene_query");
    let given = vec![("path".to_string(), ArgValue::Text("/Arena01".into()))];
    assert_eq!(query.argv(&given).unwrap(), ["dim", "scene", "query", "/Arena01"]);
}

#[test]
fn an_argument_the_tool_lacks_is_refused_by_its_name() {
    let tools = tools_from(&commands());
    let given = vec![("depth".to_string(), ArgValue::Other("2".into()))];
    let d = tool(&tools, "scene_tree").argv(&given).unwrap_err();
    assert_eq!(d.message, "scene_tree has no argument \"depth\"");
    assert_eq!(d.code.as_str(), "DIM0404");
}

#[test]
fn a_required_argument_left_out_is_refused_before_anything_runs() {
    let tools = tools_from(&commands());
    let given = vec![("project".to_string(), ArgValue::Text("game".into()))];
    let d = tool(&tools, "scene_query").argv(&given).unwrap_err();
    assert_eq!(d.message, "scene_query needs \"path\"");
}

#[test]
fn a_message_without_an_id_is_not_answered() {
    assert_eq!(route("notifications/initialized", false), None);
    assert_eq!(route("tools/call", true), Some(Route::CallTool));
    assert_eq!(route("initialize", true), Some(Route::Initialize));
    assert_eq!(route("resources/list", true), Some(Route::Unknown));
}

#[test]
fn a_tool_that_is_not_there_is_a_protocol_error() {
    let tools = tools_from(&commands());
    let e = find_tool(&tools, "scene_teleport").unwrap_err();
    assert_eq!(e.code, -32602);
    assert_eq!(e.message, "no tool called \"scene_teleport\"");
}
