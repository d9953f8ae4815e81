//! The naming convention: which file names play which role in a source tree,
//! and which symbol each such file exports.

use crate::text::texts;
use vstd::prelude::*;

verus! {

/// The template of the generated module, with its five markers.
pub const SERVER_TEMPLATE: &'static str =
    "import express from \"express\";\n/* __nextExpress_imports__ */\n\nexport const createServer = () => {\n  const app = express();\n\n  /* __nextExpress_settings__ */\n\n  /* __nextExpress_topLevelMiddlewares__ */\n\n  /* __nextExpress_routes__ */\n\n  /* __nextExpress_tailMiddlewares__ */\n  return app;\n};\n";

/// The response of a route to a request whose method no handler takes.
pub const METHOD_NOT_ALLOWED: &'static str =
    "res.status(405).send(`Method ${req.method} Not Allowed`);";

/// The file names and exported symbols that the compiler looks for, and the
/// template it fills.
#[derive(Clone, Debug)]
pub struct Convention {
    pub server_template: String,
    pub app_dir_name: String,
    pub support_ext: Vec<String>,
    pub route_file_basename: String,
    pub middlewares_file_basename: String,
    pub tail_middlewares_file_basename: String,
    pub settings_file_basename: String,
    pub custom_server_basename: String,
    pub settings_export_name: String,
    pub middlewares_export_name: String,
    pub tail_middlewares_export_name: String,
}

/// A convention as plain texts.
pub struct ConventionView {
    pub server_template: Seq<char>,
    pub app_dir_name: Seq<char>,
    pub support_ext: Seq<Seq<char>>,
    pub route_file_basename: Seq<char>,
    pub middlewares_file_basename: Seq<char>,
    pub tail_middlewares_file_basename: Seq<char>,
    pub settings_file_basename: Seq<char>,
    pub custom_server_basename: Seq<char>,
    pub settings_export_name: Seq<char>,
    pub middlewares_export_name: Seq<char>,
    pub tail_middlewares_export_name: Seq<char>,
}

impl View for Convention {
    type V = ConventionView;

    open spec fn view(&self) -> ConventionView {
        ConventionView {
            server_template: self.server_template@,
            app_dir_name: self.app_dir_name@,
            support_ext: texts(self.support_ext@),
            route_file_basename: self.route_file_basename@,
            middlewares_file_basename: self.middlewares_file_basename@,
            tail_middlewares_file_basename: self.tail_middlewares_file_basename@,
            settings_file_basename: self.settings_file_basename@,
            custom_server_basename: self.custom_server_basename@,
            settings_export_name: self.settings_export_name@,
            middlewares_export_name: self.middlewares_export_name@,
            tail_middlewares_export_name: self.tail_middlewares_export_name@,
        }
    }
}

/// The convention that holds where nothing else is configured.
pub open spec fn default_convention() -> ConventionView {
    ConventionView {
        server_template: SERVER_TEMPLATE@,
        app_dir_name: "app"@,
        support_ext: seq![".ts"@, ".js"@],
        route_file_basename: "route"@,
        middlewares_file_basename: "middlewares"@,
        tail_middlewares_file_basename: "tail-middlewares"@,
        settings_file_basename: "settings"@,
        custom_server_basename: "custom-server"@,
        settings_export_name: "settings"@,
        middlewares_export_name: "middlewares"@,
        tail_middlewares_export_name: "middlewares"@,
    }
}

/// The file names of a role: its base name with each supported extension, in
/// the order of the extensions.
pub open spec fn filenames(exts: Seq<Seq<char>>, basename: Seq<char>) -> Seq<Seq<char>> {
    Seq::new(exts.len(), |i: int| basename + exts[i])
}

impl ConventionView {
    /// The file names of a route module.
    pub open spec fn route_filenames(self) -> Seq<Seq<char>> {
        filenames(self.support_ext, self.route_file_basename)
    }

    /// The file names of a middleware module, of a directory or of the whole
    /// application.
    pub open spec fn middlewares_filenames(self) -> Seq<Seq<char>> {
        filenames(self.support_ext, self.middlewares_file_basename)
    }

    /// The file names of the tail-middleware module.
    pub open spec fn tail_middlewares_filenames(self) -> Seq<Seq<char>> {
        filenames(self.support_ext, self.tail_middlewares_file_basename)
    }

    /// The file names of the settings module.
    pub open spec fn settings_filenames(self) -> Seq<Seq<char>> {
        filenames(self.support_ext, self.settings_file_basename)
    }

    /// The file names of a custom template.
    pub open spec fn custom_server_filenames(self) -> Seq<Seq<char>> {
        filenames(self.support_ext, self.custom_server_basename)
    }
}

impl Convention {
    /// The default convention.
    pub fn default() -> (c: Convention)
        ensures
            c@ == default_convention(),
    {
        let mut support_ext: Vec<String> = Vec::new();
        support_ext.push(String::from_str(".ts"));
        support_ext.push(String::from_str(".js"));
        assert(texts(support_ext@) == seq![".ts"@, ".js"@]);
        Convention {
            server_template: String::from_str(SERVER_TEMPLATE),
            app_dir_name: String::from_str("app"),
            support_ext,
            route_file_basename: String::from_str("route"),
            middlewares_file_basename: String::from_str("middlewares"),
            tail_middlewares_file_basename: String::from_str("tail-middlewares"),
            settings_file_basename: String::from_str("settings"),
            custom_server_basename: String::from_str("custom-server"),
            settings_export_name: String::from_str("settings"),
            middlewares_export_name: String::from_str("middlewares"),
            tail_middlewares_export_name: String::from_str("middlewares"),
        }
    }

    /// The same convention with another template: the one override that a
    /// source tree may bring.
    pub fn with_server_template(self, template: &str) -> (c: Convention)
        ensures
            c@ == (ConventionView { server_template: template@, ..self@ }),
    {
        let mut c = self;
        c.server_template = String::from_str(template);
        c
    }

    /// The file names that `basename` takes with the supported extensions.
    pub fn get_filenames(&self, basename: &str) -> (names: Vec<String>)
        ensures
            texts(names@) == filenames(self@.support_ext, basename@),
    {
        let mut names: Vec<String> = Vec::new();
        let mut i: usize = 0;
        while i < self.support_ext.len()
            invariant
                i <= self.support_ext.len(),
                names.len() == i,
                forall|k: int| 0 <= k < i ==> names@[k]@ == basename@ + self.support_ext@[k]@,
            decreases self.support_ext.len() - i,
        {
            let mut name = String::from_str(basename);
            name.append(self.support_ext[i].as_str());
            names.push(name);
            i = i + 1;
        }
        assert(texts(names@) =~= filenames(self@.support_ext, basename@));
        names
    }

    /// The file names of a middleware module.
    pub fn get_middlewares_filenames(&self) -> (names: Vec<String>)
        ensures
            texts(names@) == self@.middlewares_filenames(),
    {
        self.get_filenames(self.middlewares_file_basename.as_str())
    }

    /// The file names of the tail-middleware module.
    pub fn get_tail_middlewares_filenames(&self) -> (names: Vec<String>)
        ensures
            texts(names@) == self@.tail_middlewares_filenames(),
    {
        self.get_filenames(self.tail_middlewares_file_basename.as_str())
    }

    /// The file names of the settings module.
    pub fn get_settings_filenames(&self) -> (names: Vec<String>)
        ensures
            texts(names@) == self@.settings_filenames(),
    {
        self.get_filenames(self.settings_file_basename.as_str())
    }

    /// The file names of a route module.
    pub fn get_route_filenames(&self) -> (names: Vec<String>)
        ensures
            texts(names@) == self@.route_filenames(),
    {
        self.get_filenames(self.route_file_basename.as_str())
    }

    /// The file names of a custom template.
    pub fn get_custom_server_filenames(&self) -> (names: Vec<String>)
        ensures
            texts(names@) == self@.custom_server_filenames(),
    {
        self.get_filenames(self.custom_server_basename.as_str())
    }
}

/// What the compiler writes where the convention leaves a choice.
#[derive(Clone, Debug)]
pub struct Config {
    pub method_not_allowed_res: String,
}

impl Config {
    /// The default configuration.
    pub fn default() -> (c: Config)
        ensures
            c.method_not_allowed_res@ == METHOD_NOT_ALLOWED@,
    {
        Config { method_not_allowed_res: String::from_str(METHOD_NOT_ALLOWED) }
    }
}

} // verus!
