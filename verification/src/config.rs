//! Settings: folder names, the default file extension, note templates, how
//! templates are rendered, and how the user-level and local config layers
//! are resolved over the built-in defaults.

use vstd::prelude::*;
use crate::category::{Category, Kind};
use crate::text::{concat2, concat3, replace_all, replace_str};

verus! {

/// Built-in folder name of the category at table position `i`.
pub open spec fn default_category_dir(i: int) -> Seq<char> {
    if i == 0 {
        "0-Inbox"@
    } else if i == 1 {
        "1-Projects"@
    } else if i == 2 {
        "2-Areas"@
    } else if i == 3 {
        "3-Resources"@
    } else {
        "4-Archive"@
    }
}

pub open spec fn default_extension_spec() -> Seq<char> {
    "md"@
}

/// Built-in template at template position `i` (note, daily, project, area,
/// resource).
pub open spec fn default_template(i: int) -> Seq<char> {
    if i == 0 {
        "---\nlast_updated: {{date}}\n---\n# {{cursor}}{{title}}\n"@
    } else if i == 1 {
        "---\ndate: {{date}}\nlast_updated: {{date}}\n---\n# {{date}}\n\n## Tasks\n\n[ ] -\n\n## Notes\n\n{{cursor}}\n"@
    } else if i == 2 {
        "---\nlast_updated: {{date}}\n---\n\n# {{cursor}}{{title}}\n\nStatus: active\n"@
    } else if i == 3 {
        "---\nlast_updated: {{date}}\n---\n\n# {{cursor}}{{title}}\n\nStandard:\n"@
    } else {
        "---\nlast_updated: {{date}}\n---\n\n# {{cursor}}{{title}}\n"@
    }
}

/// The note templates, one per `Kind`.
#[derive(Debug, Clone, PartialEq, Eq)]
pub struct Templates {
    pub note: String,
    pub daily: String,
    pub project: String,
    pub area: String,
    pub resource: String,
}

/// Template position used by a kind: note, daily, project, area, resource.
pub open spec fn kind_template_index(k: Kind) -> int {
    match k {
        Kind::Inbox => 0,
        Kind::Daily => 1,
        Kind::Project => 2,
        Kind::Area => 3,
        Kind::Resource => 4,
    }
}

impl Templates {
    /// The template at position `i` (note, daily, project, area, resource).
    pub open spec fn at(&self, i: int) -> Seq<char> {
        if i == 0 {
            self.note@
        } else if i == 1 {
            self.daily@
        } else if i == 2 {
            self.project@
        } else if i == 3 {
            self.area@
        } else {
            self.resource@
        }
    }

    /// Maps a category to the template used when creating one of its
    /// items. `Archive` has none: items only arrive there by a move.
    pub fn for_category(&self, category: Category) -> (r: &str)
        requires
            category != Category::Archive,
        ensures
            r@ == self.at(kind_template_index(match category {
                Category::Inbox => Kind::Inbox,
                Category::Project => Kind::Project,
                Category::Area => Kind::Area,
                _ => Kind::Resource,
            })),
    {
        match category {
            Category::Inbox => self.note.as_str(),
            Category::Project => self.project.as_str(),
            Category::Area => self.area.as_str(),
            _ => self.resource.as_str(),
        }
    }

    /// The template a kind of note is created from; total, since every
    /// kind has one.
    pub fn for_kind(&self, kind: Kind) -> (r: &str)
        ensures
            r@ == self.at(kind_template_index(kind)),
    {
        match kind {
            Kind::Inbox => self.note.as_str(),
            Kind::Daily => self.daily.as_str(),
            Kind::Project => self.project.as_str(),
            Kind::Area => self.area.as_str(),
            Kind::Resource => self.resource.as_str(),
        }
    }
}

impl Default for Templates {
    fn default() -> (r: Self)
        ensures
            forall|i: int| 0 <= i < 5 ==> #[trigger] r.at(i) == default_template(i),
    {
        Templates {
            note: String::from_str("---\nlast_updated: {{date}}\n---\n# {{cursor}}{{title}}\n"),
            daily: String::from_str(
                "---\ndate: {{date}}\nlast_updated: {{date}}\n---\n# {{date}}\n\n## Tasks\n\n[ ] -\n\n## Notes\n\n{{cursor}}\n",
            ),
            project: String::from_str(
                "---\nlast_updated: {{date}}\n---\n\n# {{cursor}}{{title}}\n\nStatus: active\n",
            ),
            area: String::from_str(
                "---\nlast_updated: {{date}}\n---\n\n# {{cursor}}{{title}}\n\nStandard:\n",
            ),
            resource: String::from_str("---\nlast_updated: {{date}}\n---\n\n# {{cursor}}{{title}}\n"),
        }
    }
}

/// Effective settings.
#[derive(Debug, Clone, PartialEq, Eq)]
pub struct Config {
    /// Folder names, indexed by category position (Inbox, Project, Area,
    /// Resource, Archive).
    pub category_dirs: [String; 5],
    pub default_extension: String,
    pub templates: Templates,
}

impl Config {
    /// Folder name of the category at table position `i`.
    pub open spec fn dir(&self, i: int) -> Seq<char> {
        self.category_dirs@[i]@
    }

    /// Whether every setting holds its built-in value.
    pub open spec fn is_default(&self) -> bool {
        &&& forall|i: int| 0 <= i < 5 ==> #[trigger] self.dir(i) == default_category_dir(i)
        &&& self.default_extension@ == default_extension_spec()
        &&& forall|i: int| 0 <= i < 5 ==> #[trigger] self.templates.at(i) == default_template(i)
    }
}

impl Default for Config {
    fn default() -> (r: Self)
        ensures
            r.is_default(),
    {
        let category_dirs = [
            String::from_str("0-Inbox"),
            String::from_str("1-Projects"),
            String::from_str("2-Areas"),
            String::from_str("3-Resources"),
            String::from_str("4-Archive"),
        ];
        let r = Config {
            category_dirs,
            default_extension: String::from_str("md"),
            templates: Templates::default(),
        };
        assert forall|i: int| 0 <= i < 5 implies #[trigger] r.dir(i) == default_category_dir(i) by {
            if i == 0 {
            } else if i == 1 {
            } else if i == 2 {
            } else if i == 3 {
            } else {
            }
        }
        r
    }
}

/// `template` with `{{date}}` and `{{title}}` filled in, in that order.
/// `{{cursor}}` is left for the editor to interpret.
pub open spec fn render_spec(template: Seq<char>, title: Seq<char>, date: Seq<char>) -> Seq<char> {
    replace_all(replace_all(template, "{{date}}"@, date), "{{title}}"@, title)
}

/// `render_spec`, then `{{time}}` and `{{uuid}}` filled in.
pub open spec fn render_full_spec(
    template: Seq<char>,
    title: Seq<char>,
    date: Seq<char>,
    time: Seq<char>,
    uuid: Seq<char>,
) -> Seq<char> {
    replace_all(replace_all(render_spec(template, title, date), "{{time}}"@, time), "{{uuid}}"@, uuid)
}

/// Fills in `{{date}}` and `{{title}}` in `template`. Leaves `{{cursor}}`
/// untouched: interpreting that marker is the editor's job.
pub fn render(template: &str, title: &str, date: &str) -> (r: String)
    ensures
        r@ == render_spec(template@, title@, date@),
{
    let date_marker = "{{date}}";
    let title_marker = "{{title}}";
    proof {
        reveal_strlit("{{date}}");
        reveal_strlit("{{title}}");
    }
    let with_date = replace_str(template, date_marker, date);
    replace_str(with_date.as_str(), title_marker, title)
}

/// Fills in `{{date}}`, `{{title}}`, `{{time}}` and `{{uuid}}` in
/// `template`, leaving `{{cursor}}` untouched.
pub fn render_full(template: &str, title: &str, date: &str, time: &str, uuid: &str) -> (r: String)
    ensures
        r@ == render_full_spec(template@, title@, date@, time@, uuid@),
{
    let first = render(template, title, date);
    let time_marker = "{{time}}";
    let uuid_marker = "{{uuid}}";
    proof {
        reveal_strlit("{{time}}");
        reveal_strlit("{{uuid}}");
    }
    let with_time = replace_str(first.as_str(), time_marker, time);
    replace_str(with_time.as_str(), uuid_marker, uuid)
}

/// Where an effective setting came from.
#[derive(Debug, Clone, Copy, PartialEq, Eq, Structural)]
pub enum Origin {
    /// The built-in default; no config file set it.
    Default,
    /// `~/.ishi.toml` set it and the local file did not.
    User,
    /// `./.ishi.toml` set it and the user file did not.
    Local,
    /// Both files set it; the local value wins.
    LocalOverridesUser,
}

/// What one config file sets: each key is `None` where the file is silent.
#[derive(Debug, Clone, PartialEq, Eq)]
pub struct ConfigLayer {
    /// Folder names by category position.
    pub folders: [Option<String>; 5],
    pub extension: Option<String>,
    /// Templates by template position (note, daily, project, area,
    /// resource).
    pub templates: [Option<String>; 5],
}

/// The provenance of every setting of a resolved config.
#[derive(Debug, Clone, Copy, PartialEq, Eq)]
pub struct ConfigOrigins {
    pub folders: [Origin; 5],
    pub extension: Origin,
    pub templates: [Origin; 5],
}

/// The value a layer gives a key, if the layer exists and sets it.
pub open spec fn set_by(v: Option<Option<String>>) -> Option<Seq<char>> {
    match v {
        Some(Some(s)) => Some(s@),
        _ => None,
    }
}

pub open spec fn layer_folder(layer: Option<ConfigLayer>, i: int) -> Option<Option<String>> {
    match layer {
        Some(l) => Some(l.folders@[i]),
        None => None,
    }
}

pub open spec fn layer_extension(layer: Option<ConfigLayer>) -> Option<Option<String>> {
    match layer {
        Some(l) => Some(l.extension),
        None => None,
    }
}

pub open spec fn layer_template(layer: Option<ConfigLayer>, i: int) -> Option<Option<String>> {
    match layer {
        Some(l) => Some(l.templates@[i]),
        None => None,
    }
}

/// Precedence: the local value if set, else the user value if set, else
/// the default.
pub open spec fn pick(d: Seq<char>, user: Option<Seq<char>>, local: Option<Seq<char>>) -> Seq<char> {
    match local {
        Some(l) => l,
        None => match user {
            Some(u) => u,
            None => d,
        },
    }
}

pub open spec fn origin_of(user: Option<Seq<char>>, local: Option<Seq<char>>) -> Origin {
    match (user, local) {
        (None, None) => Origin::Default,
        (Some(_), None) => Origin::User,
        (None, Some(_)) => Origin::Local,
        (Some(_), Some(_)) => Origin::LocalOverridesUser,
    }
}

/// The characters of an optional string.
pub open spec fn opt_view(v: Option<&String>) -> Option<Seq<char>> {
    match v {
        Some(s) => Some(s@),
        None => None,
    }
}

fn pick_value(d: &str, user: Option<&String>, local: Option<&String>) -> (r: (String, Origin))
    ensures
        r.0@ == pick(d@, opt_view(user), opt_view(local)),
        r.1 == origin_of(opt_view(user), opt_view(local)),
{
    match (user, local) {
        (None, None) => (d.to_owned(), Origin::Default),
        (Some(u), None) => (u.clone(), Origin::User),
        (None, Some(l)) => (l.clone(), Origin::Local),
        (Some(_), Some(l)) => (l.clone(), Origin::LocalOverridesUser),
    }
}

fn default_dir_str(i: usize) -> (r: &'static str)
    requires
        i < 5,
    ensures
        r@ == default_category_dir(i as int),
{
    if i == 0 {
        "0-Inbox"
    } else if i == 1 {
        "1-Projects"
    } else if i == 2 {
        "2-Areas"
    } else if i == 3 {
        "3-Resources"
    } else {
        "4-Archive"
    }
}

fn default_template_str(i: usize) -> (r: &'static str)
    requires
        i < 5,
    ensures
        r@ == default_template(i as int),
{
    if i == 0 {
        "---\nlast_updated: {{date}}\n---\n# {{cursor}}{{title}}\n"
    } else if i == 1 {
        "---\ndate: {{date}}\nlast_updated: {{date}}\n---\n# {{date}}\n\n## Tasks\n\n[ ] -\n\n## Notes\n\n{{cursor}}\n"
    } else if i == 2 {
        "---\nlast_updated: {{date}}\n---\n\n# {{cursor}}{{title}}\n\nStatus: active\n"
    } else if i == 3 {
        "---\nlast_updated: {{date}}\n---\n\n# {{cursor}}{{title}}\n\nStandard:\n"
    } else {
        "---\nlast_updated: {{date}}\n---\n\n# {{cursor}}{{title}}\n"
    }
}

/// Every setting of `c` is the one the layering rule picks from the
/// defaults, `user` and `local`, and `o` names the layer it came from.
pub open spec fn resolved(
    c: Config,
    o: ConfigOrigins,
    user: Option<ConfigLayer>,
    local: Option<ConfigLayer>,
) -> bool {
    &&& forall|i: int|
        0 <= i < 5 ==> #[trigger] c.dir(i) == pick(
            default_category_dir(i),
            set_by(layer_folder(user, i)),
            set_by(layer_folder(local, i)),
        ) && o.folders@[i] == origin_of(set_by(layer_folder(user, i)), set_by(layer_folder(local, i)))
    &&& c.default_extension@ == pick(
        default_extension_spec(),
        set_by(layer_extension(user)),
        set_by(layer_extension(local)),
    )
    &&& o.extension == origin_of(set_by(layer_extension(user)), set_by(layer_extension(local)))
    &&& forall|i: int|
        0 <= i < 5 ==> #[trigger] c.templates.at(i) == pick(
            default_template(i),
            set_by(layer_template(user, i)),
            set_by(layer_template(local, i)),
        ) && o.templates@[i] == origin_of(
            set_by(layer_template(user, i)),
            set_by(layer_template(local, i)),
        )
}

fn layer_folder_ref(layer: &Option<ConfigLayer>, i: usize) -> (r: Option<&String>)
    requires
        i < 5,
    ensures
        opt_view(r) == set_by(layer_folder(*layer, i as int)),
{
    match layer {
        Some(l) => match &l.folders[i] {
            Some(s) => Some(s),
            None => None,
        },
        None => None,
    }
}

fn layer_template_ref(layer: &Option<ConfigLayer>, i: usize) -> (r: Option<&String>)
    requires
        i < 5,
    ensures
        opt_view(r) == set_by(layer_template(*layer, i as int)),
{
    match layer {
        Some(l) => match &l.templates[i] {
            Some(s) => Some(s),
            None => None,
        },
        None => None,
    }
}

fn layer_extension_ref(layer: &Option<ConfigLayer>) -> (r: Option<&String>)
    ensures
        opt_view(r) == set_by(layer_extension(*layer)),
{
    match layer {
        Some(l) => match &l.extension {
            Some(s) => Some(s),
            None => None,
        },
        None => None,
    }
}

impl Config {
    /// Layers the user-level config and then the local config over the
    /// built-in defaults, key by key, and reports where each effective
    /// value came from.
    pub fn resolve(user: &Option<ConfigLayer>, local: &Option<ConfigLayer>) -> (r: (
        Config,
        ConfigOrigins,
    ))
        ensures
            resolved(r.0, r.1, *user, *local),
    {
        let (d0, o0) = pick_value(default_dir_str(0), layer_folder_ref(user, 0), layer_folder_ref(local, 0));
        let (d1, o1) = pick_value(default_dir_str(1), layer_folder_ref(user, 1), layer_folder_ref(local, 1));
        let (d2, o2) = pick_value(default_dir_str(2), layer_folder_ref(user, 2), layer_folder_ref(local, 2));
        let (d3, o3) = pick_value(default_dir_str(3), layer_folder_ref(user, 3), layer_folder_ref(local, 3));
        let (d4, o4) = pick_value(default_dir_str(4), layer_folder_ref(user, 4), layer_folder_ref(local, 4));
        let (ext, oe) = pick_value("md", layer_extension_ref(user), layer_extension_ref(local));
        let (t0, p0) = pick_value(default_template_str(0), layer_template_ref(user, 0), layer_template_ref(local, 0));
        let (t1, p1) = pick_value(default_template_str(1), layer_template_ref(user, 1), layer_template_ref(local, 1));
        let (t2, p2) = pick_value(default_template_str(2), layer_template_ref(user, 2), layer_template_ref(local, 2));
        let (t3, p3) = pick_value(default_template_str(3), layer_template_ref(user, 3), layer_template_ref(local, 3));
        let (t4, p4) = pick_value(default_template_str(4), layer_template_ref(user, 4), layer_template_ref(local, 4));
        proof {
            reveal_strlit("md");
        }
        let c = Config {
            category_dirs: [d0, d1, d2, d3, d4],
            default_extension: ext,
            templates: Templates { note: t0, daily: t1, project: t2, area: t3, resource: t4 },
        };
        let o = ConfigOrigins {
            folders: [o0, o1, o2, o3, o4],
            extension: oe,
            templates: [p0, p1, p2, p3, p4],
        };
        assert forall|i: int| 0 <= i < 5 implies #[trigger] c.dir(i) == pick(
            default_category_dir(i),
            set_by(layer_folder(*user, i)),
            set_by(layer_folder(*local, i)),
        ) && o.folders@[i] == origin_of(
            set_by(layer_folder(*user, i)),
            set_by(layer_folder(*local, i)),
        ) by {
            if i == 0 {
            } else if i == 1 {
            } else if i == 2 {
            } else if i == 3 {
            } else {
            }
        }
        assert forall|i: int| 0 <= i < 5 implies #[trigger] c.templates.at(i) == pick(
            default_template(i),
            set_by(layer_template(*user, i)),
            set_by(layer_template(*local, i)),
        ) && o.templates@[i] == origin_of(
            set_by(layer_template(*user, i)),
            set_by(layer_template(*local, i)),
        ) by {
            if i == 0 {
            } else if i == 1 {
            } else if i == 2 {
            } else if i == 3 {
            } else {
            }
        }
        (c, o)
    }
}

/// With neither config file present, the resolved config is exactly the
/// built-in defaults, and every key is reported as a default.
pub proof fn lemma_resolve_without_files_is_default(c: Config, o: ConfigOrigins)
    requires
        resolved(c, o, None, None),
    ensures
        c.is_default(),
        forall|i: int| 0 <= i < 5 ==> #[trigger] o.folders@[i] == Origin::Default,
        o.extension == Origin::Default,
        forall|i: int| 0 <= i < 5 ==> #[trigger] o.templates@[i] == Origin::Default,
{
    assert forall|i: int| 0 <= i < 5 implies #[trigger] c.dir(i) == default_category_dir(i) by {
        assert(c.dir(i) == pick(default_category_dir(i), set_by(layer_folder(None, i)), set_by(layer_folder(None, i))));
    }
    assert forall|i: int| 0 <= i < 5 implies #[trigger] c.templates.at(i) == default_template(i) by {
        assert(c.templates.at(i) == pick(default_template(i), set_by(layer_template(None, i)), set_by(layer_template(None, i))));
    }
    assert forall|i: int| 0 <= i < 5 implies #[trigger] o.folders@[i] == Origin::Default by {
        assert(c.dir(i) == c.dir(i));
    }
    assert forall|i: int| 0 <= i < 5 implies #[trigger] o.templates@[i] == Origin::Default by {
        assert(c.templates.at(i) == c.templates.at(i));
    }
}

/// A key the local file sets takes the local value whatever the user file
/// says; a key only the user file sets takes the user value.
pub proof fn lemma_local_takes_precedence(
    c: Config,
    o: ConfigOrigins,
    user: Option<ConfigLayer>,
    local: ConfigLayer,
    i: int,
)
    requires
        resolved(c, o, user, Some(local)),
        0 <= i < 5,
    ensures
        local.folders@[i] matches Some(v) ==> c.dir(i) == v@,
        local.templates@[i] matches Some(v) ==> c.templates.at(i) == v@,
        local.extension matches Some(v) ==> c.default_extension@ == v@,
        local.folders@[i] is None ==> (user matches Some(u) ==> (u.folders@[i] matches Some(v)
            ==> c.dir(i) == v@ && o.folders@[i] == Origin::User)),
{
    assert(c.dir(i) == c.dir(i));
    assert(c.templates.at(i) == c.templates.at(i));
}

/// How a setting's provenance is written in `config`'s annotated output.
pub open spec fn origin_label(o: Origin) -> Seq<char> {
    match o {
        Origin::Default => "default"@,
        Origin::User => "user"@,
        Origin::Local => "local"@,
        Origin::LocalOverridesUser => "local, overrides user"@,
    }
}

fn origin_label_str(o: Origin) -> (r: &'static str)
    ensures
        r@ == origin_label(o),
{
    match o {
        Origin::Default => "default",
        Origin::User => "user",
        Origin::Local => "local",
        Origin::LocalOverridesUser => "local, overrides user",
    }
}

/// How provenance is reported in machine-readable output: which layer
/// won, `local` whether or not it overrode the user file.
pub open spec fn origin_key_spec(o: Origin) -> Seq<char> {
    match o {
        Origin::Default => "default"@,
        Origin::User => "user"@,
        Origin::Local | Origin::LocalOverridesUser => "local"@,
    }
}

/// The provenance value `config --json` reports for a setting.
pub fn origin_key(o: Origin) -> (r: &'static str)
    ensures
        r@ == origin_key_spec(o),
{
    match o {
        Origin::Default => "default",
        Origin::User => "user",
        Origin::Local | Origin::LocalOverridesUser => "local",
    }
}

/// `s` escaped for a TOML basic string: backslashes, then double quotes.
pub open spec fn toml_escape(s: Seq<char>) -> Seq<char> {
    replace_all(replace_all(s, "\\"@, "\\\\"@), "\""@, "\\\""@)
}

fn toml_escape_exec(s: &str) -> (r: String)
    ensures
        r@ == toml_escape(s@),
{
    proof {
        reveal_strlit("\\");
        reveal_strlit("\\\\");
        reveal_strlit("\"");
        reveal_strlit("\\\"");
    }
    let a = replace_str(s, "\\", "\\\\");
    replace_str(a.as_str(), "\"", "\\\"")
}

/// ` # <origin>` after a value, when provenance is shown.
pub open spec fn annotation(o: Option<Origin>) -> Seq<char> {
    match o {
        Some(x) => " # "@ + origin_label(x),
        None => Seq::empty(),
    }
}

/// `key = "value"` (plus its annotation) and a newline.
pub open spec fn value_line(key: Seq<char>, value: Seq<char>, o: Option<Origin>) -> Seq<char> {
    key + " = \""@ + toml_escape(value) + "\""@ + annotation(o) + "\n"@
}

/// A template as a multi-line string, preceded by a `# <origin>` comment
/// line when provenance is shown.
pub open spec fn template_block(key: Seq<char>, value: Seq<char>, o: Option<Origin>) -> Seq<char> {
    (match o {
        Some(x) => "# "@ + origin_label(x) + "\n"@,
        None => Seq::empty(),
    }) + key + " = \"\"\"\n"@ + toml_escape(value) + "\"\"\"\n"@
}

pub open spec fn folder_key(i: int) -> Seq<char> {
    if i == 0 {
        "inbox"@
    } else if i == 1 {
        "projects"@
    } else if i == 2 {
        "areas"@
    } else if i == 3 {
        "resources"@
    } else {
        "archive"@
    }
}

pub open spec fn template_key(i: int) -> Seq<char> {
    if i == 0 {
        "note"@
    } else if i == 1 {
        "daily"@
    } else if i == 2 {
        "project"@
    } else if i == 3 {
        "area"@
    } else {
        "resource"@
    }
}

pub open spec fn folder_origin(o: Option<ConfigOrigins>, i: int) -> Option<Origin> {
    match o {
        Some(x) => Some(x.folders@[i]),
        None => None,
    }
}

pub open spec fn template_origin(o: Option<ConfigOrigins>, i: int) -> Option<Origin> {
    match o {
        Some(x) => Some(x.templates@[i]),
        None => None,
    }
}

pub open spec fn extension_origin(o: Option<ConfigOrigins>) -> Option<Origin> {
    match o {
        Some(x) => Some(x.extension),
        None => None,
    }
}

/// The config as `.ishi.toml` text: `[folders]`, `[defaults]` and
/// `[templates]` tables, each setting annotated with where it came from
/// when `o` is given.
pub open spec fn config_toml(c: Config, o: Option<ConfigOrigins>) -> Seq<char> {
    "[folders]\n"@ + value_line(folder_key(0), c.dir(0), folder_origin(o, 0)) + value_line(
        folder_key(1),
        c.dir(1),
        folder_origin(o, 1),
    ) + value_line(folder_key(2), c.dir(2), folder_origin(o, 2)) + value_line(
        folder_key(3),
        c.dir(3),
        folder_origin(o, 3),
    ) + value_line(folder_key(4), c.dir(4), folder_origin(o, 4)) + "\n[defaults]\n"@ + value_line(
        "extension"@,
        c.default_extension@,
        extension_origin(o),
    ) + "\n[templates]\n"@ + template_block(template_key(0), c.templates.at(0), template_origin(o, 0))
        + "\n"@ + template_block(template_key(1), c.templates.at(1), template_origin(o, 1)) + "\n"@
        + template_block(template_key(2), c.templates.at(2), template_origin(o, 2)) + "\n"@
        + template_block(template_key(3), c.templates.at(3), template_origin(o, 3)) + "\n"@
        + template_block(template_key(4), c.templates.at(4), template_origin(o, 4))
}

fn folder_key_str(i: usize) -> (r: &'static str)
    requires
        i < 5,
    ensures
        r@ == folder_key(i as int),
{
    if i == 0 {
        "inbox"
    } else if i == 1 {
        "projects"
    } else if i == 2 {
        "areas"
    } else if i == 3 {
        "resources"
    } else {
        "archive"
    }
}

fn template_key_str(i: usize) -> (r: &'static str)
    requires
        i < 5,
    ensures
        r@ == template_key(i as int),
{
    if i == 0 {
        "note"
    } else if i == 1 {
        "daily"
    } else if i == 2 {
        "project"
    } else if i == 3 {
        "area"
    } else {
        "resource"
    }
}

fn value_line_exec(key: &str, value: &str, o: Option<Origin>) -> (r: String)
    ensures
        r@ == value_line(key@, value@, o),
{
    proof {
        reveal_strlit(" = \"");
        reveal_strlit("\"");
        reveal_strlit(" # ");
        reveal_strlit("\n");
    }
    let escaped = toml_escape_exec(value);
    let mut r = concat3(key, " = \"", escaped.as_str());
    r.append("\"");
    match o {
        Some(x) => {
            r.append(" # ");
            r.append(origin_label_str(x));
        },
        None => {},
    }
    r.append("\n");
    r
}

fn template_block_exec(key: &str, value: &str, o: Option<Origin>) -> (r: String)
    ensures
        r@ == template_block(key@, value@, o),
{
    proof {
        reveal_strlit("# ");
        reveal_strlit("\n");
        reveal_strlit(" = \"\"\"\n");
        reveal_strlit("\"\"\"\n");
    }
    let mut r = match o {
        Some(x) => concat3("# ", origin_label_str(x), "\n"),
        None => String::new(),
    };
    let escaped = toml_escape_exec(value);
    r.append(key);
    r.append(" = \"\"\"\n");
    r.append(escaped.as_str());
    r.append("\"\"\"\n");
    r
}

fn template_str(t: &Templates, i: usize) -> (r: &str)
    requires
        i < 5,
    ensures
        r@ == t.at(i as int),
{
    if i == 0 {
        t.note.as_str()
    } else if i == 1 {
        t.daily.as_str()
    } else if i == 2 {
        t.project.as_str()
    } else if i == 3 {
        t.area.as_str()
    } else {
        t.resource.as_str()
    }
}

/// The provenance record behind an optional reference.
pub open spec fn origins_of(o: Option<&ConfigOrigins>) -> Option<ConfigOrigins> {
    match o {
        Some(x) => Some(*x),
        None => None,
    }
}

/// Renders a config as `.ishi.toml` text; with `origins`, every setting is
/// annotated with the layer it came from (what bare `config` prints).
pub fn render_config_toml(c: &Config, origins: Option<&ConfigOrigins>) -> (r: String)
    ensures
        r@ == config_toml(*c, origins_of(origins)),
{
    proof {
        reveal_strlit("[folders]\n");
        reveal_strlit("\n[defaults]\n");
        reveal_strlit("extension");
        reveal_strlit("\n[templates]\n");
        reveal_strlit("\n");
    }
    let o: Option<ConfigOrigins> = match origins {
        Some(x) => Some(*x),
        None => None,
    };
    let mut r = String::from_str("[folders]\n");
    let mut i: usize = 0;
    while i < 5
        invariant
            i <= 5,
            o == origins_of(origins),
            r@ == "[folders]\n"@ + folder_lines(*c, o, i as int),
        decreases 5 - i,
    {
        let fo = match o {
            Some(x) => Some(x.folders[i]),
            None => None,
        };
        let line = value_line_exec(folder_key_str(i), c.category_dirs[i].as_str(), fo);
        r.append(line.as_str());
        assert(r@ =~= "[folders]\n"@ + folder_lines(*c, o, i + 1));
        i = i + 1;
    }
    r.append("\n[defaults]\n");
    let eo = match o {
        Some(x) => Some(x.extension),
        None => None,
    };
    r.append(value_line_exec("extension", c.default_extension.as_str(), eo).as_str());
    r.append("\n[templates]\n");
    let mut j: usize = 0;
    let ghost prefix = r@;
    while j < 5
        invariant
            j <= 5,
            o == origins_of(origins),
            r@ == prefix + template_blocks(*c, o, j as int),
        decreases 5 - j,
    {
        let to = match o {
            Some(x) => Some(x.templates[j]),
            None => None,
        };
        if j > 0 {
            r.append("\n");
        }
        let block = template_block_exec(template_key_str(j), template_str(&c.templates, j), to);
        r.append(block.as_str());
        assert(r@ =~= prefix + template_blocks(*c, o, j + 1));
        j = j + 1;
    }
    proof {
        lemma_config_toml_parts(*c, o);
    }
    r
}

proof fn lemma_config_toml_parts(c: Config, o: Option<ConfigOrigins>)
    ensures
        config_toml(c, o) == "[folders]\n"@ + folder_lines(c, o, 5) + "\n[defaults]\n"@ + value_line(
            "extension"@,
            c.default_extension@,
            extension_origin(o),
        ) + "\n[templates]\n"@ + template_blocks(c, o, 5),
{
    reveal_with_fuel(folder_lines, 6);
    reveal_with_fuel(template_blocks, 6);
    let f = folder_lines(c, o, 5);
    let t = template_blocks(c, o, 5);
    assert(f =~= value_line(folder_key(0), c.dir(0), folder_origin(o, 0)) + value_line(
        folder_key(1),
        c.dir(1),
        folder_origin(o, 1),
    ) + value_line(folder_key(2), c.dir(2), folder_origin(o, 2)) + value_line(
        folder_key(3),
        c.dir(3),
        folder_origin(o, 3),
    ) + value_line(folder_key(4), c.dir(4), folder_origin(o, 4)));
    assert(config_toml(c, o) =~= "[folders]\n"@ + f + "\n[defaults]\n"@ + value_line(
        "extension"@,
        c.default_extension@,
        extension_origin(o),
    ) + "\n[templates]\n"@ + t);
}

/// The first `n` folder lines.
pub open spec fn folder_lines(c: Config, o: Option<ConfigOrigins>, n: int) -> Seq<char>
    decreases n,
{
    if n <= 0 {
        Seq::empty()
    } else {
        folder_lines(c, o, n - 1) + value_line(folder_key(n - 1), c.dir(n - 1), folder_origin(o, n - 1))
    }
}

/// The first `n` template blocks, separated by blank lines.
pub open spec fn template_blocks(c: Config, o: Option<ConfigOrigins>, n: int) -> Seq<char>
    decreases n,
{
    if n <= 0 {
        Seq::empty()
    } else if n == 1 {
        template_block(template_key(0), c.templates.at(0), template_origin(o, 0))
    } else {
        template_blocks(c, o, n - 1) + "\n"@ + template_block(
            template_key(n - 1),
            c.templates.at(n - 1),
            template_origin(o, n - 1),
        )
    }
}

/// What `config init` writes: a `#:schema` line pointing at the schema
/// file written beside it, a blank line, then the built-in defaults.
pub fn config_init_content() -> (r: String)
    ensures
        exists|c: Config| c.is_default() && r@ == "#:schema ./.ishi.schema.json\n\n"@ + config_toml(c, None),
{
    let c = Config::default();
    let body = render_config_toml(&c, None);
    proof {
        reveal_strlit("#:schema ./.ishi.schema.json\n\n");
    }
    concat2("#:schema ./.ishi.schema.json\n\n", body.as_str())
}

} // verus!
