//! Command-line surface.
//!
//! Every engine command is a subcommand, every output is JSON when asked for,
//! and every failure carries a `DIM####` code. That is not decoration: an agent
//! that has to parse prose to find out whether something worked will eventually
//! get it wrong.
//!
//! These are the commands as plain values; the command-line parser that
//! fills them in is the program's.
use vstd::prelude::*;

verus! {

/// The Dimetric command-line tool.
#[derive(Clone, Debug, PartialEq, Eq)]
pub struct Cli {
    /// Project directory. Defaults to the working directory.
    pub project: Option<String>,

    /// Scene to operate on, relative to the project root.
    pub scene: Option<String>,

    /// Emit JSON instead of text.
    pub json: bool,

    /// Seed for generated node ids, so a scripted session is reproducible.
    pub id_seed: u64,

    /// What to do.
    pub command: Top,
}

/// Top-level subcommands.
#[derive(Clone, Debug, PartialEq, Eq)]
pub enum Top {
    /// Inspect and format scenes.
    Scene(SceneCmd),
    /// Read and edit nodes.
    Node(NodeCmd),
    /// Instance prefabs and manage their overrides.
    Prefab(PrefabCmd),
    /// Set and clear instance overrides.
    Override(OverrideCmd),
    /// Connect and disconnect signals.
    Signal(SignalCmd),
    /// Write scripts.
    Script(ScriptCmd),
    /// Read and paint tiles.
    Tile(TileCmd),
    /// Import and list assets.
    Asset(AssetCmd),
    /// Run the simulation headlessly.
    Run(RunArgs),
    /// Dump simulation state.
    State(StateCmd),
    /// Capture a frame.
    Frame(FrameCmd),
    /// Replay a recorded run and check it.
    Replay(ReplayArgs),
    /// Package the project for a platform.
    Build(BuildArgs),
    /// Write a new project to start from.
    New(NewArgs),
    /// Print the engine's diagnostic codes, node kinds and command set.
    Api(ApiCmd),
    /// Serve the same commands as MCP tools over stdin and stdout.
    Mcp,
}

/// Scene-level operations.
#[derive(Clone, Debug, PartialEq, Eq)]
pub enum SceneCmd {
    /// Print the node tree.
    Tree,
    /// Look up one node by path.
    Query {
        /// Scene path, such as `/Arena01/Player`.
        path: String,
    },
    /// Rewrite the scene in canonical form.
    Fmt {
        /// Report whether the file is already canonical instead of writing it.
        check: bool,
    },
    /// Report the scene's validation diagnostics.
    Check,
    /// Resolve every prefab instance and print the runtime tree.
    Resolve,
}

/// Node operations.
#[derive(Clone, Debug, PartialEq, Eq)]
pub enum NodeCmd {
    /// Print one node's properties.
    Get {
        /// Scene path.
        path: String,
    },
    /// Add a node.
    Create {
        /// Registered node kind.
        kind: String,
        /// Name, unique among its siblings.
        name: String,
        /// Parent's scene path.
        parent: String,
        /// Node id to use. Generated when absent.
        id: Option<String>,
        /// Property assignments, as `key=value` with TOML value syntax.
        set: Vec<String>,
    },
    /// Set one property.
    Assign {
        /// Scene path.
        path: String,
        /// Property key.
        key: String,
        /// Value, in TOML syntax.
        value: String,
    },
    /// Clear one property, restoring its default.
    Clear {
        /// Scene path.
        path: String,
        /// Property key.
        key: String,
    },
    /// Move a node under a new parent.
    Reparent {
        /// Scene path of the node to move.
        path: String,
        /// Scene path of the new parent.
        parent: String,
    },
    /// Rename a node.
    Rename {
        /// Scene path.
        path: String,
        /// New name.
        name: String,
    },
    /// Remove a node and its subtree.
    Delete {
        /// Scene path.
        path: String,
    },
}

/// Prefab operations.
#[derive(Clone, Debug, PartialEq, Eq)]
pub enum PrefabCmd {
    /// Add an instance of another scene.
    Instance {
        /// Source scene, such as `prefabs/skeleton`.
        source: String,
        /// Parent's scene path.
        parent: String,
        /// Name for the instance.
        name: String,
        /// Position, as `x,y`.
        pos: Option<String>,
        /// Node id to use. Generated when absent.
        id: Option<String>,
    },
}

/// Override operations.
#[derive(Clone, Debug, PartialEq, Eq)]
pub enum OverrideCmd {
    /// Set one override.
    Assign {
        /// Scene path of the instance node.
        instance: String,
        /// Node id in the source scene.
        target: String,
        /// Property key.
        key: String,
        /// Value, in TOML syntax.
        value: String,
    },
    /// Clear one override.
    Clear {
        /// Scene path of the instance node.
        instance: String,
        /// Node id in the source scene.
        target: String,
        /// Property key.
        key: String,
    },
    /// List the overrides on an instance.
    List {
        /// Scene path of the instance node.
        instance: String,
    },
}

/// Signal operations.
#[derive(Clone, Debug, PartialEq, Eq)]
pub enum SignalCmd {
    /// Connect a signal to a method.
    Connect {
        /// Emitter's scene path.
        from: String,
        /// Signal name.
        signal: String,
        /// Receiver's scene path.
        to: String,
        /// Method on the receiver's script.
        method: String,
    },
    /// Remove a connection.
    Disconnect {
        /// Emitter's scene path.
        from: String,
        /// Signal name.
        signal: String,
        /// Receiver's scene path.
        to: String,
        /// Method.
        method: String,
    },
    /// List the scene's connections.
    List,
}

/// Script operations.
#[derive(Clone, Debug, PartialEq, Eq)]
pub enum ScriptCmd {
    /// Write a script file, reporting syntax errors structurally.
    Write {
        /// Project-relative path, such as `scripts/enemy.lua`.
        path: String,
        /// Source text. Read from standard input when absent.
        source: Option<String>,
    },
    /// Check a script without writing it, or every script in the project when
    /// no path is given.
    Check {
        /// Also scan for things that may not reproduce on another machine.
        determinism: bool,
        /// Project-relative path. Absent means every script under `scripts/`.
        path: Option<String>,
    },
    /// List the project's scripts.
    List,
}

/// Tile operations.
#[derive(Clone, Debug, PartialEq, Eq)]
pub enum TileCmd {
    /// Fill a rectangle.
    Fill {
        /// Tile layer's scene path.
        layer: String,
        /// Region, as `x,y,width,height`.
        rect: String,
        /// Tile index.
        tile: u16,
    },
    /// Set one tile.
    Assign {
        /// Tile layer's scene path.
        layer: String,
        /// Coordinate, as `x,y`.
        at: String,
        /// Tile index.
        tile: u16,
    },
    /// Read one tile.
    Get {
        /// Tile layer's scene path.
        layer: String,
        /// Coordinate, as `x,y`.
        at: String,
    },
    /// Import an LDtk level, baking it to native chunks.
    ///
    /// One way: the scene never references the `.ldtk` again. Reimporting the
    /// same level updates the layers it made rather than stacking new ones.
    ImportLdtk {
        /// Path to the `.ldtk` file, project-relative.
        path: String,
        /// Level to bake. Defaults to the first in the project.
        level: Option<String>,
        /// Node the layers hang off. Defaults to the scene root.
        into: Option<String>,
        /// Tileset asset for every layer, overriding what LDtk named.
        tileset: Option<String>,
        /// Report what would happen without changing anything.
        dry_run: bool,
    },
}

/// Asset operations.
#[derive(Clone, Debug, PartialEq, Eq)]
pub enum AssetCmd {
    /// List the project's source assets and their import state.
    List {
        /// Only list assets whose cache is behind their source.
        stale: bool,
    },
    /// Import one asset.
    Import {
        /// Project-relative path.
        path: String,
    },
    /// Import everything whose cache is behind its source.
    Reimport {
        /// Import every asset, not only the stale ones.
        all: bool,
    },
    /// Describe one asset: its id, its hash, and what it imported to.
    Info {
        /// Asset name, as a scene refers to it: `sprites/hero`.
        name: String,
    },
}

/// Headless run arguments.
#[derive(Clone, Debug, PartialEq, Eq)]
pub struct RunArgs {
    /// Run without a window. Always on, and accepted so that written-down
    /// commands keep working: `dim run` is the headless one, and `dim-play`
    /// is the window.
    pub headless: bool,
    /// Ticks to simulate. With an input log, defaults to the log's length.
    pub ticks: Option<u64>,
    /// Run seed.
    pub seed: u64,
    /// Input log to drive the run.
    pub input: Option<String>,
    /// Write the per-tick state hashes here.
    pub record: Option<String>,
    /// Reload changed scripts and assets between ticks.
    ///
    /// Off by default, and refused while replaying: a run that picks up an
    /// edited script does not reproduce the recording it came from.
    pub watch: bool,
    /// Read and write the project's `profile.toml`.
    ///
    /// Off by default, because a headless run is usually a test and a test
    /// that spent somebody's Crowns would be a bad test. With it on, the run
    /// is a real session: it starts from the saved profile and writes back
    /// whatever it changed.
    ///
    /// `dim replay` has no such flag on purpose. A replay that read a profile
    /// would reproduce its recording only on the machine that made it, and
    /// one that wrote a profile could spend the Crowns of somebody who was
    /// only checking a bug.
    pub profile: bool,
}

/// State inspection.
#[derive(Clone, Debug, PartialEq, Eq)]
pub enum StateCmd {
    /// Run to a tick and dump the state there.
    Dump {
        /// Tick to stop at.
        tick: u64,
        /// Run seed.
        seed: u64,
        /// Input log to drive the run.
        input: Option<String>,
    },
    /// Print the state hash at a tick.
    Hash {
        /// Tick to stop at.
        tick: u64,
        /// Run seed.
        seed: u64,
    },
    /// Run to a tick and write the state out as a resumable save.
    Save {
        /// Directory to write into.
        out: String,
        /// Tick to stop at.
        tick: u64,
        /// Run seed.
        seed: u64,
        /// Input log to drive the run.
        input: Option<String>,
    },
    /// Read a save back and report what is in it.
    ///
    /// The loaded state becomes tick 0 of a fresh session, so this is also how
    /// a resumed run starts.
    Load {
        /// Directory to read.
        from: String,
    },
}

/// Frame capture.
#[derive(Clone, Debug, PartialEq, Eq)]
pub enum FrameCmd {
    /// Render one frame to a PNG.
    Capture {
        /// Tick to render.
        tick: u64,
        /// Output path.
        png: String,
        /// Run seed.
        seed: u64,
        /// Input log to drive the run up to the tick.
        input: Option<String>,
        /// Output width in pixels.
        width: u32,
        /// Output height in pixels.
        height: u32,
        /// Override `[render] resolution` for this capture, as `WxH`. The
        /// project's own is used when this is absent, and overriding it
        /// warns, because picking still uses the project's.
        internal: Option<String>,
        /// Scale by whole numbers only. On by default, for pixel art.
        no_integer_upscale: bool,
        /// Ambient light as `#rrggbbaa`. Anything but white enables the light
        /// pass; white means lights would add nothing and it is skipped.
        ambient: Option<String>,
    },
}

/// Replay arguments.
#[derive(Clone, Debug, PartialEq, Eq)]
pub struct ReplayArgs {
    /// Input log to replay.
    pub input: String,
    /// Recorded hashes to compare against.
    pub hashes: Option<String>,
    /// Probe file to evaluate.
    pub probe: Option<String>,
    /// Ticks to run. Defaults to the log's length.
    pub ticks: Option<u64>,
}

/// Build arguments.
#[derive(Clone, Debug, PartialEq, Eq)]
pub struct BuildArgs {
    /// Target platform: `linux`, `macos`, `windows`, or a Rust target triple.
    pub target: String,
    /// Where to stage it. Defaults to `build/<target>` under the project.
    pub out: Option<String>,
    /// A `dim-play` built for this target, to ship beside the game.
    ///
    /// `dim` does not compile Rust; cargo does. Build one with
    /// `cargo build -p dimetric-player --features gui --release --target <triple>`
    /// and pass it here.
    pub runtime: Option<String>,
    /// Seed the packaged game starts from.
    pub seed: u64,
}

/// Arguments for `dim new`.
#[derive(Clone, Debug, PartialEq, Eq)]
pub struct NewArgs {
    /// Directory to create. Must be empty or absent.
    pub path: String,
    /// Name for the root node and the README. Defaults to the directory's name.
    pub name: Option<String>,
}

/// Generated-documentation commands.
#[derive(Clone, Debug, PartialEq, Eq)]
pub enum ApiCmd {
    /// Print every diagnostic code.
    Codes,
    /// Print every registered node kind and its properties.
    Kinds,
    /// Print the command set.
    Commands,
    /// Print the JSON schema for the command set.
    Schema,
    /// Print the MCP tool list, which is this CLI seen from the other side.
    Tools,
    /// Print the Lua sandbox's globals.
    Globals,
    /// Print the keys every node has, which a kind may not reuse.
    Reserved,
    /// Print the shape of a node id and an asset id.
    Ids,
}

} // verus!
