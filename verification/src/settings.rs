//! The feature settings of a project and how one run's requests are merged
//! into them.

use vstd::prelude::*;
use vstd::string::*;
use crate::flipper::Flipper;
use crate::when::FeatureMap;

verus! {

/// What the caller asked for in one run.
///
/// A per-feature request is `None` when the feature was not mentioned,
/// `Some(None)` when it was mentioned bare, and `Some(Some(_))` when it was
/// given an explicit switch.
#[derive(Clone, Debug)]
pub struct Flags {
    pub redis: Option<Option<Flipper>>,
    pub postgres: Option<Option<Flipper>>,
    pub honeycomb: Option<Option<Flipper>>,
    pub githubci: Option<Option<Flipper>>,
    pub templates: Option<Option<Flipper>>,
    pub typescript: Option<Option<Flipper>>,
    pub volta: Option<Option<Flipper>>,
    pub csrf: Option<Option<Flipper>>,
    pub status: Option<Option<Flipper>>,
    pub ping: Option<Option<Flipper>>,
    pub jwt: Option<Option<Flipper>>,
    pub livereload: Option<Option<Flipper>>,
    pub oauth: Option<Option<Flipper>>,
    pub staticfiles: Option<Option<Flipper>>,
    pub esbuild: Option<Option<Flipper>>,
    /// The group of features for building websites.
    pub website: bool,
    /// The group of all features.
    pub all: bool,
    pub force: bool,
    pub verbose: u64,
    pub silent: bool,
    pub quiet: bool,
    /// Self-test mode: every feature is forced on.
    pub selftest: bool,
    pub docs: bool,
    pub destination: String,
}

/// The persisted feature set of a project. Each feature is on, off or
/// undecided.
#[derive(Clone, Debug)]
pub struct Settings {
    pub version: Option<String>,
    pub node_version: Option<String>,
    pub csrf: Option<bool>,
    pub staticfiles: Option<bool>,
    pub esbuild: Option<bool>,
    pub githubci: Option<bool>,
    pub honeycomb: Option<bool>,
    pub jwt: Option<bool>,
    pub livereload: Option<bool>,
    pub oauth: Option<bool>,
    pub ping: Option<bool>,
    pub postgres: Option<bool>,
    pub redis: Option<bool>,
    pub selftest: Option<bool>,
    pub status: Option<bool>,
    pub templates: Option<bool>,
    pub typescript: Option<bool>,
    pub volta: Option<bool>,
}

/// The values that a template is rendered against.
pub struct TemplateContext {
    pub flags: FeatureMap,
    pub version: String,
    pub node_version: String,
}

/// What an explicit request says: a bare mention and `On` ask for on, `Off`
/// asks for off, and no mention says nothing.
pub open spec fn requested(req: Option<Option<Flipper>>) -> Option<bool> {
    match req {
        Some(None) => Some(true),
        Some(Some(Flipper::On)) => Some(true),
        Some(Some(Flipper::Off)) => Some(false),
        None => None,
    }
}

/// The merged value of one feature. From strongest to weakest: the force
/// mode, an explicit request, membership in an active group, the persisted
/// value. Where none of them speaks the feature stays undecided.
pub open spec fn resolved(
    req: Option<Option<Flipper>>,
    persisted: Option<bool>,
    in_group: bool,
    force: bool,
) -> Option<bool> {
    if force {
        Some(true)
    } else if requested(req) is Some {
        requested(req)
    } else if in_group {
        Some(true)
    } else {
        persisted
    }
}

/// Whether a tri-state value counts as on.
pub open spec fn counts_as_on(v: Option<bool>) -> bool {
    v == Some(true)
}

/// The sequence holding `name` if `v` counts as on, and nothing otherwise.
pub open spec fn listed(v: Option<bool>, name: &'static str) -> Seq<&'static str> {
    if counts_as_on(v) {
        seq![name]
    } else {
        Seq::empty()
    }
}

fn request_of(req: &Option<Option<Flipper>>) -> (r: Option<bool>)
    ensures
        r == requested(*req),
{
    match req {
        Some(None) => Some(true),
        Some(Some(Flipper::On)) => Some(true),
        Some(Some(Flipper::Off)) => Some(false),
        None => None,
    }
}

fn resolve(req: &Option<Option<Flipper>>, persisted: &Option<bool>, in_group: bool, force: bool) -> (r:
    Option<bool>)
    ensures
        r == resolved(*req, *persisted, in_group, force),
{
    if force {
        return Some(true);
    }
    match request_of(req) {
        Some(b) => Some(b),
        None => if in_group {
            Some(true)
        } else {
            *persisted
        },
    }
}

fn is_on_value(v: &Option<bool>) -> (r: bool)
    ensures
        r == counts_as_on(*v),
{
    match v {
        Some(b) => *b,
        None => false,
    }
}

impl Settings {
    /// The settings in which nothing is decided.
    pub open spec fn undecided(&self) -> bool {
        &&& self.version is None
        &&& self.node_version is None
        &&& self.csrf is None
        &&& self.staticfiles is None
        &&& self.esbuild is None
        &&& self.githubci is None
        &&& self.honeycomb is None
        &&& self.jwt is None
        &&& self.livereload is None
        &&& self.oauth is None
        &&& self.ping is None
        &&& self.postgres is None
        &&& self.redis is None
        &&& self.selftest is None
        &&& self.status is None
        &&& self.templates is None
        &&& self.typescript is None
        &&& self.volta is None
    }

    /// Settings in which nothing is decided.
    pub fn empty() -> (r: Settings)
        ensures
            r.undecided(),
    {
        Settings {
            version: None,
            node_version: None,
            csrf: None,
            staticfiles: None,
            esbuild: None,
            githubci: None,
            honeycomb: None,
            jwt: None,
            livereload: None,
            oauth: None,
            ping: None,
            postgres: None,
            redis: None,
            selftest: None,
            status: None,
            templates: None,
            typescript: None,
            volta: None,
        }
    }

    /// The settings of a project that has none persisted yet: continuous
    /// integration and the two monitoring endpoints on, all else undecided.
    pub fn initial() -> (r: Settings)
        ensures
            r.githubci == Some(true),
            r.status == Some(true),
            r.ping == Some(true),
            (Settings { githubci: None, status: None, ping: None, ..r }).undecided(),
    {
        let mut s = Settings::empty();
        s.githubci = Some(true);
        s.status = Some(true);
        s.ping = Some(true);
        s
    }

    /// Whether `r` is what merging one run's requests into the persisted
    /// settings `self` gives. The website features belong to the website
    /// group and to the group of all; continuous integration, tracing and
    /// the two stores belong to the group of all only; TypeScript and Volta
    /// belong to no group. The self-test mode is recorded for the run it was
    /// asked for and not carried over from earlier runs.
    pub open spec fn merges_into(
        &self,
        r: Settings,
        version: Seq<char>,
        node_version: Seq<char>,
        flags: Flags,
    ) -> bool {
        let web = flags.all || flags.website;
        let force = flags.selftest;
        &&& r.version is Some && r.version->0@ == version
        &&& r.node_version is Some && r.node_version->0@ == node_version
        &&& r.csrf == resolved(flags.csrf, self.csrf, web, force)
        &&& r.staticfiles == resolved(flags.staticfiles, self.staticfiles, web, force)
        &&& r.esbuild == resolved(flags.esbuild, self.esbuild, web, force)
        &&& r.jwt == resolved(flags.jwt, self.jwt, web, force)
        &&& r.livereload == resolved(flags.livereload, self.livereload, web, force)
        &&& r.oauth == resolved(flags.oauth, self.oauth, web, force)
        &&& r.ping == resolved(flags.ping, self.ping, web, force)
        &&& r.status == resolved(flags.status, self.status, web, force)
        &&& r.templates == resolved(flags.templates, self.templates, web, force)
        &&& r.githubci == resolved(flags.githubci, self.githubci, flags.all, force)
        &&& r.honeycomb == resolved(flags.honeycomb, self.honeycomb, flags.all, force)
        &&& r.postgres == resolved(flags.postgres, self.postgres, flags.all, force)
        &&& r.redis == resolved(flags.redis, self.redis, flags.all, force)
        &&& r.typescript == resolved(flags.typescript, self.typescript, false, force)
        &&& r.volta == resolved(flags.volta, self.volta, false, force)
        &&& r.selftest == if flags.selftest {
            Some(true)
        } else {
            None::<bool>
        }
    }

    /// Merges one run's requests into the persisted settings. The result
    /// always carries the tool version and the runtime version it was given.
    pub fn merge_flags(&self, version: String, node_version: String, flags: &Flags) -> (r: Settings)
        ensures
            self.merges_into(r, version@, node_version@, *flags),
    {
        let web = flags.all || flags.website;
        let force = flags.selftest;
        Settings {
            csrf: resolve(&flags.csrf, &self.csrf, web, force),
            staticfiles: resolve(&flags.staticfiles, &self.staticfiles, web, force),
            esbuild: resolve(&flags.esbuild, &self.esbuild, web, force),
            jwt: resolve(&flags.jwt, &self.jwt, web, force),
            livereload: resolve(&flags.livereload, &self.livereload, web, force),
            oauth: resolve(&flags.oauth, &self.oauth, web, force),
            ping: resolve(&flags.ping, &self.ping, web, force),
            status: resolve(&flags.status, &self.status, web, force),
            templates: resolve(&flags.templates, &self.templates, web, force),
            githubci: resolve(&flags.githubci, &self.githubci, flags.all, force),
            honeycomb: resolve(&flags.honeycomb, &self.honeycomb, flags.all, force),
            postgres: resolve(&flags.postgres, &self.postgres, flags.all, force),
            redis: resolve(&flags.redis, &self.redis, flags.all, force),
            typescript: resolve(&flags.typescript, &self.typescript, false, force),
            version: Some(version),
            node_version: Some(node_version),
            volta: resolve(&flags.volta, &self.volta, false, force),
            selftest: if flags.selftest {
                Some(true)
            } else {
                None
            },
        }
    }

    /// The names of the features that are on, in alphabetical order, with
    /// the self-test mode last.
    pub open spec fn feature_names(&self) -> Seq<&'static str> {
        listed(self.csrf, "csrf") + listed(self.esbuild, "esbuild") + listed(
            self.githubci,
            "githubci",
        ) + listed(self.honeycomb, "honeycomb") + listed(self.jwt, "jwt") + listed(
            self.livereload,
            "livereload",
        ) + listed(self.oauth, "oauth") + listed(self.ping, "ping") + listed(
            self.postgres,
            "postgres",
        ) + listed(self.redis, "redis") + listed(self.staticfiles, "staticfiles") + listed(
            self.status,
            "status",
        ) + listed(self.templates, "templates") + listed(self.typescript, "typescript") + listed(
            self.selftest,
            "selftest",
        )
    }

    /// Lists the features that are on.
    pub fn features(&self) -> (r: Vec<&'static str>)
        ensures
            r@ == self.feature_names(),
    {
        let mut out: Vec<&'static str> = Vec::new();
        list_if_on(&mut out, &self.csrf, "csrf");
        list_if_on(&mut out, &self.esbuild, "esbuild");
        list_if_on(&mut out, &self.githubci, "githubci");
        list_if_on(&mut out, &self.honeycomb, "honeycomb");
        list_if_on(&mut out, &self.jwt, "jwt");
        list_if_on(&mut out, &self.livereload, "livereload");
        list_if_on(&mut out, &self.oauth, "oauth");
        list_if_on(&mut out, &self.ping, "ping");
        list_if_on(&mut out, &self.postgres, "postgres");
        list_if_on(&mut out, &self.redis, "redis");
        list_if_on(&mut out, &self.staticfiles, "staticfiles");
        list_if_on(&mut out, &self.status, "status");
        list_if_on(&mut out, &self.templates, "templates");
        list_if_on(&mut out, &self.typescript, "typescript");
        list_if_on(&mut out, &self.selftest, "selftest");
        out
    }

    /// The features that are on, as one line of text.
    pub fn describe(&self) -> (r: String)
        ensures
            r@ == listing(self.feature_names()),
    {
        let names = self.features();
        list_names(&names)
    }

    /// The map `base` with each feature that templates may consult set to
    /// whether it counts as on.
    pub open spec fn flags_over(&self, base: Map<Seq<char>, bool>) -> Map<Seq<char>, bool> {
        base.insert("typescript"@, counts_as_on(self.typescript)).insert(
            "templates"@,
            counts_as_on(self.templates),
        ).insert("status"@, counts_as_on(self.status)).insert(
            "staticfiles"@,
            counts_as_on(self.staticfiles),
        ).insert("selftest"@, counts_as_on(self.selftest)).insert(
            "redis"@,
            counts_as_on(self.redis),
        ).insert("postgres"@, counts_as_on(self.postgres)).insert(
            "ping"@,
            counts_as_on(self.ping),
        ).insert("oauth"@, counts_as_on(self.oauth)).insert(
            "livereload"@,
            counts_as_on(self.livereload),
        ).insert("jwt"@, counts_as_on(self.jwt)).insert(
            "honeycomb"@,
            counts_as_on(self.honeycomb),
        ).insert("githubci"@, counts_as_on(self.githubci)).insert(
            "esbuild"@,
            counts_as_on(self.esbuild),
        ).insert("csrf"@, counts_as_on(self.csrf))
    }

    /// The flattened boolean view of the settings: each recognised feature
    /// mapped to whether it counts as on. Nothing else is in the map, so
    /// every other name counts as off.
    pub open spec fn flat(&self) -> Map<Seq<char>, bool> {
        self.flags_over(Map::<Seq<char>, bool>::empty().insert("volta"@, counts_as_on(self.volta)))
    }

    fn fill(&self, m: &mut FeatureMap)
        ensures
            final(m)@ == self.flags_over(old(m)@),
    {
        m.set("typescript".to_owned(), is_on_value(&self.typescript));
        m.set("templates".to_owned(), is_on_value(&self.templates));
        m.set("status".to_owned(), is_on_value(&self.status));
        m.set("staticfiles".to_owned(), is_on_value(&self.staticfiles));
        m.set("selftest".to_owned(), is_on_value(&self.selftest));
        m.set("redis".to_owned(), is_on_value(&self.redis));
        m.set("postgres".to_owned(), is_on_value(&self.postgres));
        m.set("ping".to_owned(), is_on_value(&self.ping));
        m.set("oauth".to_owned(), is_on_value(&self.oauth));
        m.set("livereload".to_owned(), is_on_value(&self.livereload));
        m.set("jwt".to_owned(), is_on_value(&self.jwt));
        m.set("honeycomb".to_owned(), is_on_value(&self.honeycomb));
        m.set("githubci".to_owned(), is_on_value(&self.githubci));
        m.set("esbuild".to_owned(), is_on_value(&self.esbuild));
        m.set("csrf".to_owned(), is_on_value(&self.csrf));
    }

    /// Flattens the settings into the snapshot that preconditions are
    /// evaluated against.
    pub fn flatten(&self) -> (r: FeatureMap)
        ensures
            r@ == self.flat(),
    {
        let mut m = FeatureMap::new();
        m.set("volta".to_owned(), is_on_value(&self.volta));
        self.fill(&mut m);
        m
    }

    /// What a template is rendered against, apart from its own file name:
    /// the features as booleans, the tool version (or a placeholder where
    /// none is recorded) and the runtime version.
    pub fn template_context(&self) -> (r: TemplateContext)
        requires
            self.node_version is Some,
        ensures
            r.flags@ == self.flags_over(Map::empty()),
            r.version@ == (match self.version {
                Some(v) => v@,
                None => "<unknown version>"@,
            }),
            r.node_version@ == self.node_version->0@,
    {
        let mut flags = FeatureMap::new();
        self.fill(&mut flags);
        let version = match &self.version {
            Some(v) => v.clone(),
            None => "<unknown version>".to_owned(),
        };
        let node_version = match &self.node_version {
            Some(v) => v.clone(),
            None => String::new(),
        };
        TemplateContext { flags, version, node_version }
    }
}

impl Default for Settings {
    fn default() -> (r: Settings)
        ensures
            r.undecided(),
    {
        Settings::empty()
    }
}

/// The names written one after the other with a comma and a space between
/// them.
pub open spec fn listing(names: Seq<&'static str>) -> Seq<char>
    decreases names.len(),
{
    if names.len() == 0 {
        Seq::empty()
    } else if names.len() == 1 {
        names[0]@
    } else {
        listing(names.drop_last()) + ", "@ + names.last()@
    }
}

/// Writes the names one after the other, separated by a comma and a space.
pub fn list_names(names: &Vec<&'static str>) -> (r: String)
    ensures
        r@ == listing(names@),
{
    let mut out = String::new();
    let mut i: usize = 0;
    while i < names.len()
        invariant
            i <= names.len(),
            out@ == listing(names@.take(i as int)),
        decreases names.len() - i,
    {
        proof {
            let longer = names@.take(i + 1);
            assert(longer.drop_last() =~= names@.take(i as int));
            assert(longer.last() == names@[i as int]);
            if i == 0 {
                assert(out@ + names@[0]@ =~= names@[0]@);
            }
        }
        if i > 0 {
            out.append(", ");
        }
        out.append(names[i]);
        i += 1;
    }
    assert(names@.take(names@.len() as int) =~= names@);
    out
}

fn list_if_on(out: &mut Vec<&'static str>, v: &Option<bool>, name: &'static str)
    ensures
        final(out)@ == old(out)@ + listed(*v, name),
{
    if is_on_value(v) {
        out.push(name);
        assert(out@ =~= old(out)@ + listed(*v, name));
    } else {
        assert(out@ =~= old(out)@ + listed(*v, name));
    }
}

/// In force mode every feature is on, whatever was requested or persisted.
pub proof fn lemma_force_wins(req: Option<Option<Flipper>>, persisted: Option<bool>, in_group: bool)
    ensures
        resolved(req, persisted, in_group, true) == Some(true),
{
}

/// Outside force mode an explicit request decides, whatever the groups and
/// the persisted value say.
pub proof fn lemma_explicit_request_wins(
    req: Option<Option<Flipper>>,
    persisted: Option<bool>,
    in_group: bool,
)
    requires
        req is Some,
    ensures
        resolved(req, persisted, in_group, false) == requested(req),
        requested(req) is Some,
{
}

/// A feature that is not mentioned is on if its group is active, and keeps
/// its persisted value otherwise.
pub proof fn lemma_unmentioned_feature(persisted: Option<bool>, in_group: bool)
    ensures
        resolved(None, persisted, true, false) == Some(true),
        resolved(None, persisted, false, false) == persisted,
{
}

} // verus!
