use vstd::prelude::*;
use crate::attrs::{AttributeMap, lookup};
use crate::config::{Config, TomlAndroid};
use crate::ndk::{Arch, arch_name};
use crate::pattern::{Pattern, regex_compiles, regex_replacement};
use crate::text::{
    concat, concat3, decimal, decimal_string, join_texts, join_with, quoted, replace_all,
    replace_all_str, texts_view,
};

verus! {

/// A value as it is written into a build file.
pub struct ScribeVal {
    pub input: String,
}

/// A text in double quotes.
pub open spec fn quote(s: Seq<char>) -> Seq<char> {
    seq!['"'] + s + seq!['"']
}

/// The architectures as a list of quoted names separated by `, `.
pub open spec fn arch_list(archs: Seq<Arch>) -> Seq<char> {
    join_with(archs.map_values(|a: Arch| quote(arch_name(a))), ", "@)
}

impl ScribeVal {
    /// A number, written in decimal.
    pub fn from_number(n: u32) -> (r: ScribeVal)
        ensures
            r.input@ == decimal(n as nat),
    {
        ScribeVal { input: decimal_string(n) }
    }

    /// A text, written in double quotes.
    pub fn from_text(s: &str) -> (r: ScribeVal)
        ensures
            r.input@ == quote(s@),
    {
        ScribeVal { input: quoted(s) }
    }

    /// Text written as it is.
    pub fn from_str(s: &str) -> (r: ScribeVal)
        ensures
            r.input@ == s@,
    {
        ScribeVal { input: s.to_owned() }
    }

    /// Architectures, written as their quoted names separated by `, `.
    pub fn from_archs(archs: &Vec<Arch>) -> (r: ScribeVal)
        ensures
            r.input@ == arch_list(archs@),
    {
        let mut names: Vec<String> = Vec::new();
        let n = archs.len();
        for i in 0..n
            invariant
                n == archs@.len(),
                texts_view(names@) == archs@.take(i as int).map_values(|a: Arch| quote(arch_name(a))),
        {
            let q = quoted(archs[i].name());
            let ghost before = names@;
            names.push(q);
            assert(texts_view(names@) =~= texts_view(before).push(q@));
            assert(archs@.take(i + 1).map_values(|a: Arch| quote(arch_name(a)))
                =~= archs@.take(i as int).map_values(|a: Arch| quote(arch_name(a))).push(quote(arch_name(archs@[i as int]))));
        }
        assert(archs@.take(n as int) =~= archs@);
        ScribeVal { input: join_texts(&names, ", ") }
    }
}

/// Why a template could not be filled in.
#[derive(Debug, Clone, Copy, PartialEq, Eq, Structural)]
pub enum ScribeError {
    /// The `regex` crate refused a pattern built from a setting's name.
    InvalidPattern,
}

/// The text after replacing the first match of `pattern` with
/// `replacement`; `None` when the pattern does not compile.
pub open spec fn regex_edit(text: Seq<char>, pattern: Seq<char>, replacement: Seq<char>) -> Option<Seq<char>> {
    if regex_compiles(pattern) {
        Some(regex_replacement(pattern, text, replacement))
    } else {
        None
    }
}

/// The pattern of a Gradle setting: its name, one whitespace character or
/// `+`, and the rest of the line.
pub open spec fn gradle_pattern(var: Seq<char>) -> Seq<char> {
    var + "[\\s+](?P<val>.*)?"@
}

/// A Gradle setting line: the name, a space and the value.
pub open spec fn gradle_line(var: Seq<char>, val: Seq<char>) -> Seq<char> {
    var + " "@ + val
}

/// The opening tag of an XML resource element of the given name.
pub open spec fn xml_open(tag: Seq<char>, var: Seq<char>) -> Seq<char> {
    "<"@ + tag + " name=\""@ + var + "\">"@
}

/// The closing tag of an XML element.
pub open spec fn xml_close(tag: Seq<char>) -> Seq<char> {
    "</"@ + tag + ">"@
}

/// The pattern of an XML resource element of the given name and any
/// content on its line.
pub open spec fn xml_pattern(tag: Seq<char>, var: Seq<char>) -> Seq<char> {
    xml_open(tag, var) + "(.*)"@ + xml_close(tag)
}

/// An XML resource element of the given name holding `value`.
pub open spec fn xml_element(tag: Seq<char>, var: Seq<char>, value: Seq<char>) -> Seq<char> {
    xml_open(tag, var) + value + xml_close(tag)
}

/// A text with every double quote removed.
pub open spec fn unquoted(s: Seq<char>) -> Seq<char> {
    replace_all(s, "\""@, ""@)
}

/// A text being filled in, one setting at a time.
pub struct ScribeChain {
    pub contents: String,
}

impl ScribeChain {
    fn apply(&mut self, pattern: &str, replacement: &str) -> (r: Result<(), ScribeError>)
        ensures
            match regex_edit(old(self).contents@, pattern@, replacement@) {
                Some(t) => r is Ok && final(self).contents@ == t,
                None => r == Err::<(), ScribeError>(ScribeError::InvalidPattern) && final(self).contents@ == old(self).contents@,
            },
    {
        match Pattern::new(pattern) {
            Some(p) => {
                let out = p.replace_first(self.contents.as_str(), replacement);
                self.contents = out;
                Ok(())
            },
            None => Err(ScribeError::InvalidPattern),
        }
    }

    /// Sets a Gradle setting: the first line naming `var` (followed by a
    /// whitespace character or `+`) becomes `var val`.
    pub fn gradle(&mut self, var: &str, val: ScribeVal) -> (r: Result<(), ScribeError>)
        ensures
            match regex_edit(old(self).contents@, gradle_pattern(var@), gradle_line(var@, val.input@)) {
                Some(t) => r is Ok && final(self).contents@ == t,
                None => r == Err::<(), ScribeError>(ScribeError::InvalidPattern) && final(self).contents@ == old(self).contents@,
            },
    {
        let pattern = concat(var, "[\\s+](?P<val>.*)?");
        let replacement = concat3(var, " ", val.input.as_str());
        self.apply(pattern.as_str(), replacement.as_str())
    }

    /// Sets an XML resource: the first element `<tag name="var">...</tag>`
    /// gets the value, with its double quotes removed, as content.
    pub fn xml(&mut self, var: &str, tag: &str, val: ScribeVal) -> (r: Result<(), ScribeError>)
        ensures
            match regex_edit(old(self).contents@, xml_pattern(tag@, var@), xml_element(tag@, var@, unquoted(val.input@))) {
                Some(t) => r is Ok && final(self).contents@ == t,
                None => r == Err::<(), ScribeError>(ScribeError::InvalidPattern) && final(self).contents@ == old(self).contents@,
            },
    {
        let scribe_val = replace_all_str(val.input.as_str(), "\"", "");
        let open = concat3(concat3("<", tag, " name=\"").as_str(), var, "\">");
        let close = concat3("</", tag, ">");
        let replacement = concat3(open.as_str(), scribe_val.as_str(), close.as_str());
        let pattern = concat3(open.as_str(), "(.*)", close.as_str());
        assert(open@ =~= xml_open(tag@, var@));
        self.apply(pattern.as_str(), replacement.as_str())
    }

    /// Replaces the first match of the pattern `var` with `val`.
    pub fn replace(&mut self, var: &str, val: &str) -> (r: Result<(), ScribeError>)
        ensures
            match regex_edit(old(self).contents@, var@, val@) {
                Some(t) => r is Ok && final(self).contents@ == t,
                None => r == Err::<(), ScribeError>(ScribeError::InvalidPattern) && final(self).contents@ == old(self).contents@,
            },
    {
        self.apply(var, val)
    }
}

pub open spec fn pairs_view(v: Seq<(String, String)>) -> Seq<(Seq<char>, Seq<char>)> {
    v.map_values(|p: (String, String)| (p.0@, p.1@))
}

/// The Gradle settings of the shell project's `app/build.gradle`, in the
/// order they are written: each name with its value.
pub open spec fn gradle_settings(c: Config) -> Seq<(Seq<char>, Seq<char>)> {
    seq![
        ("compileSdkVersion"@, decimal(c.compile_sdk_version as nat)),
        ("buildToolsVersion"@, quote(c.build_tools_version@)),
        ("minSdkVersion"@, decimal(c.min_sdk_version as nat)),
        ("targetSdkVersion"@, decimal(c.target_sdk_version as nat)),
        ("versionCode"@, decimal(c.version_code as nat)),
        ("versionName"@, quote(c.package_version@)),
        ("applicationId"@, quote(c.package_name@)),
        ("abiFilters"@, arch_list(c.build_targets@)),
        ("include"@, arch_list(c.build_targets@)),
    ]
}

/// The text after writing the Gradle settings one after the other; `None`
/// when a pattern does not compile.
pub open spec fn apply_gradle(text: Seq<char>, settings: Seq<(Seq<char>, Seq<char>)>) -> Option<Seq<char>>
    decreases settings.len(),
{
    if settings.len() == 0 {
        Some(text)
    } else {
        match regex_edit(text, gradle_pattern(settings[0].0), gradle_line(settings[0].0, settings[0].1)) {
            Some(t) => apply_gradle(t, settings.skip(1)),
            None => None,
        }
    }
}

/// The replacements made in the shell project's `AndroidManifest.xml`:
/// pattern and replacement, in order; the icon only when one is set.
pub open spec fn manifest_settings(c: Config) -> Seq<(Seq<char>, Seq<char>)> {
    seq![
        ("com.rumo.shell"@, c.package_name@),
        ("[version_name]"@, c.package_version@),
        ("[version_code]"@, decimal(c.version_code as nat)),
    ] + match c.package_icon {
        Some(icon) => seq![("@mipmap/ic_launcher"@, icon@)],
        None => Seq::empty(),
    }
}

/// The text after the replacements one after the other; `None` when a
/// pattern does not compile.
pub open spec fn apply_replacements(text: Seq<char>, settings: Seq<(Seq<char>, Seq<char>)>) -> Option<Seq<char>>
    decreases settings.len(),
{
    if settings.len() == 0 {
        Some(text)
    } else {
        match regex_edit(text, settings[0].0, settings[0].1) {
            Some(t) => apply_replacements(t, settings.skip(1)),
            None => None,
        }
    }
}

/// The value the metadata's application attributes give for a name, if any.
pub open spec fn application_attribute(meta: Option<TomlAndroid>, name: Seq<char>) -> Option<Seq<char>> {
    match meta {
        Some(a) => match a.application_attributes {
            Some(m) => lookup(m@, name),
            None => None,
        },
        None => None,
    }
}

/// The names among `names` that the application attributes set, with their
/// values, in the order of `names`.
pub open spec fn resource_edits(meta: Option<TomlAndroid>, names: Seq<Seq<char>>) -> Seq<(Seq<char>, Seq<char>)>
    decreases names.len(),
{
    if names.len() == 0 {
        Seq::empty()
    } else {
        resource_edits(meta, names.drop_last()) + match application_attribute(meta, names.last()) {
            Some(v) => seq![(names.last(), v)],
            None => Seq::empty(),
        }
    }
}

/// The text after setting the XML resources one after the other (each value
/// given quoted, then written without quotes); `None` when a pattern does not
/// compile.
pub open spec fn apply_xml(text: Seq<char>, tag: Seq<char>, edits: Seq<(Seq<char>, Seq<char>)>) -> Option<Seq<char>>
    decreases edits.len(),
{
    if edits.len() == 0 {
        Some(text)
    } else {
        match regex_edit(text, xml_pattern(tag, edits[0].0), xml_element(tag, edits[0].0, unquoted(quote(edits[0].1)))) {
            Some(t) => apply_xml(t, tag, edits.skip(1)),
            None => None,
        }
    }
}

/// The color resources the application attributes may set.
pub open spec fn color_names() -> Seq<Seq<char>> {
    seq!["color_primary"@, "color_primary_dark"@, "color_accent"@]
}

/// The string resources the application attributes may set.
pub open spec fn string_names() -> Seq<Seq<char>> {
    seq!["app_name"@]
}

fn gradle_all(text: &str, settings: &Vec<(String, String)>) -> (r: Result<String, ScribeError>)
    ensures
        match apply_gradle(text@, pairs_view(settings@)) {
            Some(t) => r is Ok && r->Ok_0@ == t,
            None => r == Err::<String, ScribeError>(ScribeError::InvalidPattern),
        },
{
    let mut chain = ScribeChain { contents: text.to_owned() };
    let ghost all = pairs_view(settings@);
    let n = settings.len();
    assert(all.skip(0) =~= all);
    for i in 0..n
        invariant
            n == settings@.len(),
            all == pairs_view(settings@),
            apply_gradle(text@, all) == apply_gradle(chain.contents@, all.skip(i as int)),
    {
        let ghost rest = all.skip(i as int);
        assert(rest[0] == all[i as int]);
        assert(rest.skip(1) =~= all.skip(i + 1));
        let val = ScribeVal { input: settings[i].1.clone() };
        match chain.gradle(settings[i].0.as_str(), val) {
            Ok(()) => {},
            Err(e) => {
                return Err(e);
            },
        }
    }
    assert(all.skip(n as int) =~= Seq::<(Seq<char>, Seq<char>)>::empty());
    Ok(chain.contents)
}

fn replace_all_settings(text: &str, settings: &Vec<(String, String)>) -> (r: Result<String, ScribeError>)
    ensures
        match apply_replacements(text@, pairs_view(settings@)) {
            Some(t) => r is Ok && r->Ok_0@ == t,
            None => r == Err::<String, ScribeError>(ScribeError::InvalidPattern),
        },
{
    let mut chain = ScribeChain { contents: text.to_owned() };
    let ghost all = pairs_view(settings@);
    let n = settings.len();
    assert(all.skip(0) =~= all);
    for i in 0..n
        invariant
            n == settings@.len(),
            all == pairs_view(settings@),
            apply_replacements(text@, all) == apply_replacements(chain.contents@, all.skip(i as int)),
    {
        let ghost rest = all.skip(i as int);
        assert(rest[0] == all[i as int]);
        assert(rest.skip(1) =~= all.skip(i + 1));
        match chain.replace(settings[i].0.as_str(), settings[i].1.as_str()) {
            Ok(()) => {},
            Err(e) => {
                return Err(e);
            },
        }
    }
    assert(all.skip(n as int) =~= Seq::<(Seq<char>, Seq<char>)>::empty());
    Ok(chain.contents)
}

fn xml_all(text: &str, tag: &str, edits: &Vec<(String, String)>) -> (r: Result<String, ScribeError>)
    ensures
        match apply_xml(text@, tag@, pairs_view(edits@)) {
            Some(t) => r is Ok && r->Ok_0@ == t,
            None => r == Err::<String, ScribeError>(ScribeError::InvalidPattern),
        },
{
    let mut chain = ScribeChain { contents: text.to_owned() };
    let ghost all = pairs_view(edits@);
    let n = edits.len();
    assert(all.skip(0) =~= all);
    for i in 0..n
        invariant
            n == edits@.len(),
            all == pairs_view(edits@),
            apply_xml(text@, tag@, all) == apply_xml(chain.contents@, tag@, all.skip(i as int)),
    {
        let ghost rest = all.skip(i as int);
        assert(rest[0] == all[i as int]);
        assert(rest.skip(1) =~= all.skip(i + 1));
        let val = ScribeVal::from_text(edits[i].1.as_str());
        match chain.xml(edits[i].0.as_str(), tag, val) {
            Ok(()) => {},
            Err(e) => {
                return Err(e);
            },
        }
    }
    assert(all.skip(n as int) =~= Seq::<(Seq<char>, Seq<char>)>::empty());
    Ok(chain.contents)
}

/// Fills the project's settings into the text of the shell project's
/// `app/build.gradle`.
pub fn app_gradle(config: &Config, contents: &str) -> (r: Result<String, ScribeError>)
    ensures
        match apply_gradle(contents@, gradle_settings(*config)) {
            Some(t) => r is Ok && r->Ok_0@ == t,
            None => r == Err::<String, ScribeError>(ScribeError::InvalidPattern),
        },
{
    let targets = ScribeVal::from_archs(&config.build_targets);
    let mut settings: Vec<(String, String)> = Vec::new();
    settings.push(("compileSdkVersion".to_owned(), decimal_string(config.compile_sdk_version)));
    settings.push(("buildToolsVersion".to_owned(), quoted(config.build_tools_version.as_str())));
    settings.push(("minSdkVersion".to_owned(), decimal_string(config.min_sdk_version)));
    settings.push(("targetSdkVersion".to_owned(), decimal_string(config.target_sdk_version)));
    settings.push(("versionCode".to_owned(), decimal_string(config.version_code)));
    settings.push(("versionName".to_owned(), quoted(config.package_version.as_str())));
    settings.push(("applicationId".to_owned(), quoted(config.package_name.as_str())));
    settings.push(("abiFilters".to_owned(), targets.input.clone()));
    settings.push(("include".to_owned(), targets.input));
    assert(pairs_view(settings@) =~= gradle_settings(*config));
    gradle_all(contents, &settings)
}

/// Fills the project's package name, version and icon into the text of the
/// shell project's `AndroidManifest.xml`.
pub fn android_manifest(config: &Config, contents: &str) -> (r: Result<String, ScribeError>)
    ensures
        match apply_replacements(contents@, manifest_settings(*config)) {
            Some(t) => r is Ok && r->Ok_0@ == t,
            None => r == Err::<String, ScribeError>(ScribeError::InvalidPattern),
        },
{
    let mut settings: Vec<(String, String)> = Vec::new();
    settings.push(("com.rumo.shell".to_owned(), config.package_name.clone()));
    settings.push(("[version_name]".to_owned(), config.package_version.clone()));
    settings.push(("[version_code]".to_owned(), decimal_string(config.version_code)));
    match &config.package_icon {
        Some(icon) => {
            settings.push(("@mipmap/ic_launcher".to_owned(), icon.clone()));
        },
        None => {},
    }
    assert(pairs_view(settings@) =~= manifest_settings(*config));
    replace_all_settings(contents, &settings)
}

fn present_attributes(meta: &Option<TomlAndroid>, names: &Vec<&str>) -> (r: Vec<(String, String)>)
    ensures
        pairs_view(r@) == resource_edits(*meta, names@.map_values(|s: &str| s@)),
{
    let mut out: Vec<(String, String)> = Vec::new();
    let ghost all = names@.map_values(|s: &str| s@);
    let n = names.len();
    for i in 0..n
        invariant
            n == names@.len(),
            all == names@.map_values(|s: &str| s@),
            pairs_view(out@) == resource_edits(*meta, all.take(i as int)),
    {
        assert(all.take(i + 1).drop_last() =~= all.take(i as int));
        assert(all.take(i + 1).last() == names@[i as int]@);
        let found = match meta {
            Some(a) => match &a.application_attributes {
                Some(m) => m.get(names[i]),
                None => None,
            },
            None => None,
        };
        match found {
            Some(v) => {
                let ghost before = pairs_view(out@);
                out.push((names[i].to_owned(), v));
                assert(pairs_view(out@) =~= before + seq![(names@[i as int]@, application_attribute(*meta, names@[i as int]@)->0)]);
            },
            None => {
                assert(pairs_view(out@) =~= pairs_view(out@) + Seq::<(Seq<char>, Seq<char>)>::empty());
            },
        }
    }
    assert(all.take(n as int) =~= all);
    out
}

/// The shell project's `colors.xml` and `strings.xml` texts after setting
/// the colors (`color_primary`, `color_primary_dark`, `color_accent`) and the
/// application name (`app_name`) that the application attributes of the
/// metadata give.
pub fn android_resource_strings(config: &Config, colors: &str, strings: &str) -> (r: Result<(String, String), ScribeError>)
    ensures
        match (
            apply_xml(colors@, "color"@, resource_edits(config.meta, color_names())),
            apply_xml(strings@, "string"@, resource_edits(config.meta, string_names())),
        ) {
            (Some(c), Some(s)) => r is Ok && r->Ok_0.0@ == c && r->Ok_0.1@ == s,
            _ => r == Err::<(String, String), ScribeError>(ScribeError::InvalidPattern),
        },
{
    let color_list: Vec<&str> = vec!["color_primary", "color_primary_dark", "color_accent"];
    assert(color_list@.map_values(|s: &str| s@) =~= color_names());
    let string_list: Vec<&str> = vec!["app_name"];
    assert(string_list@.map_values(|s: &str| s@) =~= string_names());
    let color_edits = present_attributes(&config.meta, &color_list);
    let string_edits = present_attributes(&config.meta, &string_list);
    let new_colors = match xml_all(colors, "color", &color_edits) {
        Ok(t) => t,
        Err(e) => {
            return Err(e);
        },
    };
    let new_strings = match xml_all(strings, "string", &string_edits) {
        Ok(t) => t,
        Err(e) => {
            return Err(e);
        },
    };
    Ok((new_colors, new_strings))
}

/// The texts of the shell project's files that carry the project's data.
pub struct ShellFiles {
    pub app_gradle: String,
    pub colors: String,
    pub strings: String,
    pub manifest: String,
}

/// Writes the project's data into the shell project: `app/build.gradle`,
/// the color and string resources, then `AndroidManifest.xml`.
pub fn turtle_shell(config: &Config, files: &ShellFiles) -> (r: Result<ShellFiles, ScribeError>)
    ensures
        match (
            apply_gradle(files.app_gradle@, gradle_settings(*config)),
            apply_xml(files.colors@, "color"@, resource_edits(config.meta, color_names())),
            apply_xml(files.strings@, "string"@, resource_edits(config.meta, string_names())),
            apply_replacements(files.manifest@, manifest_settings(*config)),
        ) {
            (Some(g), Some(c), Some(s), Some(m)) => r matches Ok(out) && out.app_gradle@ == g
                && out.colors@ == c && out.strings@ == s && out.manifest@ == m,
            _ => r == Err::<ShellFiles, ScribeError>(ScribeError::InvalidPattern),
        },
{
    let app_gradle = match app_gradle(config, files.app_gradle.as_str()) {
        Ok(t) => t,
        Err(e) => {
            return Err(e);
        },
    };
    let (colors, strings) = match android_resource_strings(config, files.colors.as_str(), files.strings.as_str()) {
        Ok(p) => p,
        Err(e) => {
            return Err(e);
        },
    };
    let manifest = match android_manifest(config, files.manifest.as_str()) {
        Ok(t) => t,
        Err(e) => {
            return Err(e);
        },
    };
    Ok(ShellFiles { app_gradle, colors, strings, manifest })
}

/// Every setting the Gradle file of the shell project takes is written,
/// each with the project's own value.
pub proof fn lemma_gradle_writes_every_setting(c: Config)
    ensures
        gradle_settings(c).contains(("compileSdkVersion"@, decimal(c.compile_sdk_version as nat))),
        gradle_settings(c).contains(("buildToolsVersion"@, quote(c.build_tools_version@))),
        gradle_settings(c).contains(("minSdkVersion"@, decimal(c.min_sdk_version as nat))),
        gradle_settings(c).contains(("targetSdkVersion"@, decimal(c.target_sdk_version as nat))),
        gradle_settings(c).contains(("versionCode"@, decimal(c.version_code as nat))),
        gradle_settings(c).contains(("versionName"@, quote(c.package_version@))),
        gradle_settings(c).contains(("applicationId"@, quote(c.package_name@))),
        gradle_settings(c).contains(("abiFilters"@, arch_list(c.build_targets@))),
        gradle_settings(c).contains(("include"@, arch_list(c.build_targets@))),
{
    let g = gradle_settings(c);
    assert(g[0] == ("compileSdkVersion"@, decimal(c.compile_sdk_version as nat)));
    assert(g[1] == ("buildToolsVersion"@, quote(c.build_tools_version@)));
    assert(g[2] == ("minSdkVersion"@, decimal(c.min_sdk_version as nat)));
    assert(g[3] == ("targetSdkVersion"@, decimal(c.target_sdk_version as nat)));
    assert(g[4] == ("versionCode"@, decimal(c.version_code as nat)));
    assert(g[5] == ("versionName"@, quote(c.package_version@)));
    assert(g[6] == ("applicationId"@, quote(c.package_name@)));
    assert(g[7] == ("abiFilters"@, arch_list(c.build_targets@)));
    assert(g[8] == ("include"@, arch_list(c.build_targets@)));
}

proof fn lemma_resource_edit_present(meta: Option<TomlAndroid>, names: Seq<Seq<char>>, i: int)
    requires
        0 <= i < names.len(),
        application_attribute(meta, names[i]) is Some,
    ensures
        resource_edits(meta, names).contains((names[i], application_attribute(meta, names[i])->0)),
    decreases names.len(),
{
    let front = resource_edits(meta, names.drop_last());
    let e = resource_edits(meta, names);
    if i == names.len() - 1 {
        assert(e[front.len() as int] == (names[i], application_attribute(meta, names[i])->0));
    } else {
        assert(names.drop_last()[i] == names[i]);
        lemma_resource_edit_present(meta, names.drop_last(), i);
        let j = choose|j: int| 0 <= j < front.len() && front[j] == (names[i], application_attribute(meta, names[i])->0);
        assert(e[j] == front[j]);
    }
}

/// Each of the colors `color_primary`, `color_primary_dark` and
/// `color_accent`, and the application name `app_name`, that the
/// application attributes set is written into the resources with its value.
pub proof fn lemma_resources_take_attributes(meta: Option<TomlAndroid>)
    ensures
        application_attribute(meta, "color_primary"@) matches Some(v)
            ==> resource_edits(meta, color_names()).contains(("color_primary"@, v)),
        application_attribute(meta, "color_primary_dark"@) matches Some(v)
            ==> resource_edits(meta, color_names()).contains(("color_primary_dark"@, v)),
        application_attribute(meta, "color_accent"@) matches Some(v)
            ==> resource_edits(meta, color_names()).contains(("color_accent"@, v)),
        application_attribute(meta, "app_name"@) matches Some(v)
            ==> resource_edits(meta, string_names()).contains(("app_name"@, v)),
{
    let cn = color_names();
    if application_attribute(meta, "color_primary"@) is Some {
        lemma_resource_edit_present(meta, cn, 0);
    }
    if application_attribute(meta, "color_primary_dark"@) is Some {
        lemma_resource_edit_present(meta, cn, 1);
    }
    if application_attribute(meta, "color_accent"@) is Some {
        lemma_resource_edit_present(meta, cn, 2);
    }
    if application_attribute(meta, "app_name"@) is Some {
        lemma_resource_edit_present(meta, string_names(), 0);
    }
}

/// A value written into an XML resource holds no double quote.
pub proof fn lemma_xml_value_unquoted(val: Seq<char>)
    ensures
        !unquoted(val).contains('"'),
{
    reveal_strlit("\"");
    reveal_strlit("");
    assert("\""@ =~= seq!['"']);
    assert(""@ =~= Seq::<char>::empty());
    crate::text::lemma_removed_char_absent(val, '"');
}

} // verus!
