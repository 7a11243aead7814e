//! Engineering Platform compatibility: deterministic detection and
//! consumption of Engineering-managed project contracts
//! (`.engineering/project.json`, `.engineering/project-map.json`).
//! The caller reads the files and hands over the JSON values the logic
//! looks at; everything decided from them is here.
use vstd::prelude::*;

use crate::order::{lex_le, sort_strings, sorted_strings, stable_order, stable_order_exec};
use crate::text::{
    chars_of, has_part, push_signed, push_str, signed_decimal, split_chars, split_on, string_from, trim,
    trim_string,
};

verus! {

/// Engineering metadata directory shared by both projects.
pub const ENGINEERING_DIR: &'static str = ".engineering";
/// Authoritative manifest emitted by Engineering Platform.
pub const PROJECT_JSON: &'static str = ".engineering/project.json";
/// Authoritative surface routing emitted by Engineering Platform.
pub const PROJECT_MAP_JSON: &'static str = ".engineering/project-map.json";
/// Dated provenance record emitted by Engineering Platform (optional).
pub const PROVENANCE_JSON: &'static str = ".engineering/provenance.json";

/// One Engineering-declared surface: logical name and repo-relative path.
#[derive(Debug, Clone)]
pub struct EngineeringSurface {
    pub surface: String,
    pub path: String,
    pub provider: String,
    pub instructions: String,
}

/// Compact Engineering origin facts.
#[derive(Debug, Clone)]
pub struct EngineeringInfo {
    pub project: String,
    pub recipe: String,
    pub recipe_version: Option<String>,
    pub catalog_version: String,
    pub database_profile: Option<String>,
    pub plan_fingerprint: String,
    pub surfaces: Vec<EngineeringSurface>,
    pub manifest_schema_version: i64,
    pub map_schema_version: i64,
    pub provenance_present: bool,
}

/// Deterministic detection outcome.
#[derive(Debug, Clone)]
pub enum EngineeringDetection {
    /// No Engineering contracts present: standalone repository.
    Absent,
    /// Engineering-managed with understood contract versions.
    Supported(EngineeringInfo),
    /// Engineering files present but unusable; never treated as standalone.
    Unsupported { reason: String, manifest_version: Option<String>, map_version: Option<String> },
}

pub open spec fn sv(o: Option<String>) -> Option<Seq<char>> {
    match o {
        Some(s) => Some(s@),
        None => None,
    }
}

pub open spec fn surface_paths(s: Seq<EngineeringSurface>) -> Seq<Seq<char>> {
    s.map_values(|x: EngineeringSurface| x.path@)
}

/// Sorted distinct elements of a sorted sequence: equal neighbours merged.
pub open spec fn dedup_sorted(s: Seq<Seq<char>>) -> Seq<Seq<char>>
    decreases s.len(),
{
    if s.len() == 0 {
        seq![]
    } else {
        let rest = dedup_sorted(s.drop_last());
        if s.len() >= 2 && s[s.len() - 2] == s.last() { rest } else { rest.push(s.last()) }
    }
}

impl EngineeringInfo {
    /// Repo-relative declared destinations, sorted, deduplicated.
    pub fn declared_paths(&self) -> (r: Vec<String>)
        ensures
            r.deep_view() == dedup_sorted(sorted_strings(surface_paths(self.surfaces@))),
    {
        let mut paths: Vec<String> = Vec::new();
        let mut i: usize = 0;
        while i < self.surfaces.len()
            invariant
                i <= self.surfaces.len(),
                paths.deep_view() == surface_paths(self.surfaces@.take(i as int)),
            decreases self.surfaces.len() - i,
        {
            paths.push(self.surfaces[i].path.clone());
            assert(surface_paths(self.surfaces@.take(i + 1)) =~= surface_paths(self.surfaces@.take(i as int)).push(self.surfaces@[i as int].path@));
            assert(paths.deep_view() =~= surface_paths(self.surfaces@.take(i as int)).push(self.surfaces@[i as int].path@));
            i += 1;
        }
        assert(self.surfaces@.take(i as int) =~= self.surfaces@);
        let sorted = sort_strings(paths);
        let ghost sv = sorted.deep_view();
        let mut out: Vec<String> = Vec::new();
        let mut j: usize = 0;
        assert(sv.take(0) =~= seq![]);
        assert(out.deep_view() =~= seq![]);
        while j < sorted.len()
            invariant
                j <= sorted.len(),
                sv == sorted.deep_view(),
                out.deep_view() == dedup_sorted(sv.take(j as int)),
            decreases sorted.len() - j,
        {
            let ghost cur = sv.take(j + 1);
            assert(cur.drop_last() =~= sv.take(j as int));
            assert(cur.last() == sv[j as int]);
            let dup = j >= 1 && crate::text::same_str(sorted[j - 1].as_str(), sorted[j].as_str());
            if j >= 1 {
                assert(cur[cur.len() - 2] == sv[j - 1]);
            }
            if !dup {
                let ghost before = out.deep_view();
                out.push(sorted[j].clone());
                assert(out.deep_view() =~= before.push(sv[j as int]));
            }
            j += 1;
        }
        assert(sv.take(j as int) =~= sv);
        out
    }
}

impl EngineeringDetection {
    /// The facts of a supported detection.
    pub fn info(&self) -> (r: Option<&EngineeringInfo>)
        ensures
            match self {
                EngineeringDetection::Supported(i) => r == Some(i),
                _ => r is None,
            },
    {
        match self {
            EngineeringDetection::Supported(info) => Some(info),
            _ => None,
        }
    }

    /// Engineering contracts are present (usable or not).
    pub fn is_engineering_managed(&self) -> (r: bool)
        ensures
            r == !(self is Absent),
    {
        match self {
            EngineeringDetection::Absent => false,
            _ => true,
        }
    }
}

/// Advisory one-line origin label for human output.
pub fn origin_label(detection: &EngineeringDetection) -> (r: &'static str)
    ensures
        r@ == match detection {
            EngineeringDetection::Absent => "standalone"@,
            EngineeringDetection::Supported(_) => "engineering-platform"@,
            EngineeringDetection::Unsupported { .. } => "engineering-platform (unsupported)"@,
        },
{
    match detection {
        EngineeringDetection::Absent => "standalone",
        EngineeringDetection::Supported(_) => "engineering-platform",
        EngineeringDetection::Unsupported { .. } => "engineering-platform (unsupported)",
    }
}

// ---------------------------------------------------------------------------
// Contract documents, as read from JSON
// ---------------------------------------------------------------------------

/// One entry of the manifest's `components`: each field is the JSON string
/// at that key, if the key holds a string.
#[derive(Debug, Clone)]
pub struct ComponentDoc {
    pub surface: Option<String>,
    pub boilerplate: Option<String>,
    pub pin: Option<String>,
    pub destination: Option<String>,
}

/// What detection reads of `project.json`. `schema_version` is the value
/// when it is an integer; `version_text` its rendering when it is a number
/// or a string; string fields hold the JSON string at that key;
/// `components` is `None` unless the key holds an array.
#[derive(Debug, Clone)]
pub struct ManifestDoc {
    pub schema_version: Option<i64>,
    pub version_text: Option<String>,
    pub project: Option<String>,
    pub recipe: Option<String>,
    pub recipe_version: Option<String>,
    pub catalog_version: Option<String>,
    pub database_profile: Option<String>,
    pub plan_fingerprint: Option<String>,
    pub components: Option<Vec<ComponentDoc>>,
}

/// One entry of the map's `surfaces` object: its key and string fields.
#[derive(Debug, Clone)]
pub struct SurfaceDoc {
    pub key: String,
    pub path: Option<String>,
    pub provider: Option<String>,
    pub instructions: Option<String>,
}

/// What detection reads of `project-map.json`; `surfaces` is `None` unless
/// the key holds an object, whose entries are listed in key order.
#[derive(Debug, Clone)]
pub struct MapDoc {
    pub schema_version: Option<i64>,
    pub version_text: Option<String>,
    pub surfaces: Option<Vec<SurfaceDoc>>,
    pub relationships_is_array: bool,
}

/// A contract file as found on disk.
#[derive(Debug, Clone)]
pub enum ContractFile<T> {
    Missing,
    /// Present but could not be read (the I/O error text).
    Unreadable(String),
    /// Read but not JSON (the parse error text).
    NotJson(String),
    Parsed(T),
}

/// A trimmed, non-empty string field.
pub open spec fn non_empty(o: Option<String>) -> Option<Seq<char>> {
    match o {
        Some(s) => if trim(s@).len() > 0 { Some(trim(s@)) } else { None },
        None => None,
    }
}

fn non_empty_exec(o: &Option<String>) -> (r: Option<String>)
    ensures
        sv(r) == non_empty(*o),
{
    match o {
        Some(s) => {
            let t = trim_string(s.as_str());
            if t.as_str().is_empty() {
                None
            } else {
                Some(t)
            }
        },
        None => None,
    }
}

/// A destination usable as routing input: relative and never escaping.
pub open spec fn safe_destination(d: Seq<char>) -> bool {
    !(d.len() > 0 && d[0] == '/') && !split_on(d, '/').contains(".."@)
}

fn safe_destination_exec(d: &str) -> (r: bool)
    ensures
        r == safe_destination(d@),
{
    let v = chars_of(d);
    if v.len() > 0 && v[0] == '/' {
        return false;
    }
    let parts = split_chars(&v, '/');
    let dots = chars_of("..");
    !has_part(&parts, &dots)
}

pub open spec fn component_ok(c: ComponentDoc) -> bool {
    &&& non_empty(c.surface) is Some
    &&& non_empty(c.boilerplate) is Some
    &&& non_empty(c.pin) is Some
    &&& non_empty(c.destination) matches Some(d) && safe_destination(d)
}

/// `project.json` carries every required field: an integer
/// `schema_version`, non-empty `project`, `recipe`, `catalog_version`,
/// `plan_fingerprint`, and at least one component, each with non-empty
/// surface, boilerplate, pin and a safe destination.
pub open spec fn manifest_ok(m: ManifestDoc) -> bool {
    &&& m.schema_version is Some
    &&& non_empty(m.project) is Some
    &&& non_empty(m.recipe) is Some
    &&& non_empty(m.catalog_version) is Some
    &&& non_empty(m.plan_fingerprint) is Some
    &&& m.components matches Some(cs) && cs.len() > 0
        && forall|i: int| 0 <= i < cs.len() ==> component_ok(#[trigger] cs[i])
}

pub open spec fn surface_ok(s: SurfaceDoc) -> bool {
    &&& non_empty(s.path) matches Some(p) && safe_destination(p)
    &&& non_empty(s.provider) is Some
    &&& non_empty(s.instructions) is Some
    &&& trim(s.key@).len() > 0
}

/// `project-map.json` carries an integer `schema_version`, at least one
/// surface with non-empty path (safe), provider and instructions under a
/// non-blank name, and a `relationships` array.
pub open spec fn map_ok(m: MapDoc) -> bool {
    &&& m.schema_version is Some
    &&& m.surfaces matches Some(ss) && ss.len() > 0 && forall|i: int| 0 <= i < ss.len() ==> surface_ok(#[trigger] ss[i])
    &&& m.relationships_is_array
}

fn manifest_ok_exec(m: &ManifestDoc) -> (r: bool)
    ensures
        r == manifest_ok(*m),
{
    if m.schema_version.is_none() || non_empty_exec(&m.project).is_none() || non_empty_exec(&m.recipe).is_none()
        || non_empty_exec(&m.catalog_version).is_none() || non_empty_exec(&m.plan_fingerprint).is_none() {
        return false;
    }
    match &m.components {
        None => false,
        Some(cs) => {
            if cs.len() == 0 {
                return false;
            }
            let mut i: usize = 0;
            while i < cs.len()
                invariant
                    i <= cs.len(),
                    m.components == Some(*cs),
                    forall|k: int| 0 <= k < i ==> component_ok(#[trigger] cs@[k]),
                decreases cs.len() - i,
            {
                let c = &cs[i];
                if non_empty_exec(&c.surface).is_none() || non_empty_exec(&c.boilerplate).is_none() || non_empty_exec(&c.pin).is_none() {
                    assert(!component_ok(cs@[i as int]));
                    return false;
                }
                match non_empty_exec(&c.destination) {
                    None => {
                        assert(!component_ok(cs@[i as int]));
                        return false;
                    },
                    Some(d) => {
                        if !safe_destination_exec(d.as_str()) {
                            assert(!component_ok(cs@[i as int]));
                            return false;
                        }
                    },
                }
                i += 1;
            }
            true
        },
    }
}

fn surface_ok_exec(s: &SurfaceDoc) -> (r: bool)
    ensures
        r == surface_ok(*s),
{
    match non_empty_exec(&s.path) {
        None => false,
        Some(p) => safe_destination_exec(p.as_str()) && non_empty_exec(&s.provider).is_some()
            && non_empty_exec(&s.instructions).is_some() && !trim_string(s.key.as_str()).as_str().is_empty(),
    }
}

fn map_ok_exec(m: &MapDoc) -> (r: bool)
    ensures
        r == map_ok(*m),
{
    if m.schema_version.is_none() || !m.relationships_is_array {
        return false;
    }
    match &m.surfaces {
        None => false,
        Some(ss) => {
            if ss.len() == 0 {
                return false;
            }
            let mut i: usize = 0;
            while i < ss.len()
                invariant
                    i <= ss.len(),
                    m.surfaces == Some(*ss),
                    forall|k: int| 0 <= k < i ==> surface_ok(#[trigger] ss@[k]),
                decreases ss.len() - i,
            {
                if !surface_ok_exec(&ss[i]) {
                    assert(!surface_ok(ss@[i as int]));
                    return false;
                }
                i += 1;
            }
            true
        },
    }
}

/// A surface as carried in the detection: name, trimmed path, provider and
/// instructions.
pub open spec fn surface_from(s: SurfaceDoc) -> (Seq<char>, Seq<char>, Seq<char>, Seq<char>) {
    (s.key@, trim(s.path->0@), trim(s.provider->0@), trim(s.instructions->0@))
}

pub open spec fn surface_view(s: EngineeringSurface) -> (Seq<char>, Seq<char>, Seq<char>, Seq<char>) {
    (s.surface@, s.path@, s.provider@, s.instructions@)
}

/// `s` rearranged by `order`.
pub open spec fn permute<A>(s: Seq<A>, order: Seq<int>) -> Seq<A> {
    order.map_values(|i: int| s[i])
}

/// The map's surfaces ordered by name, then (stably) by path.
pub open spec fn map_surfaces(ss: Seq<SurfaceDoc>) -> Seq<(Seq<char>, Seq<char>, Seq<char>, Seq<char>)> {
    let views = ss.map_values(|s: SurfaceDoc| surface_from(s));
    let by_name = permute(views, stable_order(views.map_values(|v: (Seq<char>, Seq<char>, Seq<char>, Seq<char>)| v.0)));
    permute(by_name, stable_order(by_name.map_values(|v: (Seq<char>, Seq<char>, Seq<char>, Seq<char>)| v.1)))
}

fn surfaces_exec(ss: &Vec<SurfaceDoc>) -> (r: Vec<EngineeringSurface>)
    requires
        forall|i: int| 0 <= i < ss.len() ==> surface_ok(#[trigger] ss@[i]),
    ensures
        r@.map_values(|s: EngineeringSurface| surface_view(s)) == map_surfaces(ss@),
{
    let ghost views = ss@.map_values(|s: SurfaceDoc| surface_from(s));
    let mut built: Vec<EngineeringSurface> = Vec::new();
    let mut names: Vec<Vec<char>> = Vec::new();
    let mut i: usize = 0;
    while i < ss.len()
        invariant
            i <= ss.len(),
            views == ss@.map_values(|s: SurfaceDoc| surface_from(s)),
            forall|k: int| 0 <= k < ss.len() ==> surface_ok(#[trigger] ss@[k]),
            built@.map_values(|s: EngineeringSurface| surface_view(s)) == views.take(i as int),
            names@.map_values(|v: Vec<char>| v@) == views.take(i as int).map_values(|v: (Seq<char>, Seq<char>, Seq<char>, Seq<char>)| v.0),
        decreases ss.len() - i,
    {
        let s = &ss[i];
        assert(surface_ok(ss@[i as int]));
        let path = match &s.path {
            Some(p) => trim_string(p.as_str()),
            None => String::new(),
        };
        let provider = match &s.provider {
            Some(p) => trim_string(p.as_str()),
            None => String::new(),
        };
        let instructions = match &s.instructions {
            Some(p) => trim_string(p.as_str()),
            None => String::new(),
        };
        let ghost b0 = built@.map_values(|s: EngineeringSurface| surface_view(s));
        let ghost n0 = names@.map_values(|v: Vec<char>| v@);
        names.push(chars_of(s.key.as_str()));
        built.push(EngineeringSurface { surface: s.key.clone(), path, provider, instructions });
        assert(views.take(i + 1) =~= views.take(i as int).push(views[i as int]));
        assert(built@.map_values(|s: EngineeringSurface| surface_view(s)) =~= b0.push(views[i as int]));
        assert(names@.map_values(|v: Vec<char>| v@) =~= n0.push(views[i as int].0));
        assert(views.take(i + 1).map_values(|v: (Seq<char>, Seq<char>, Seq<char>, Seq<char>)| v.0) =~= views.take(i as int).map_values(|v: (Seq<char>, Seq<char>, Seq<char>, Seq<char>)| v.0).push(views[i as int].0));
        i += 1;
    }
    assert(views.take(i as int) =~= views);
    let by_name = reorder(&built, &stable_order_exec(&names));
    let mut paths: Vec<Vec<char>> = Vec::new();
    let mut j: usize = 0;
    let ghost bn = by_name@.map_values(|s: EngineeringSurface| surface_view(s));
    while j < by_name.len()
        invariant
            j <= by_name.len(),
            bn == by_name@.map_values(|s: EngineeringSurface| surface_view(s)),
            paths@.map_values(|v: Vec<char>| v@) == bn.take(j as int).map_values(|v: (Seq<char>, Seq<char>, Seq<char>, Seq<char>)| v.1),
        decreases by_name.len() - j,
    {
        let ghost p0 = paths@.map_values(|v: Vec<char>| v@);
        paths.push(chars_of(by_name[j].path.as_str()));
        assert(paths@.map_values(|v: Vec<char>| v@) =~= p0.push(bn[j as int].1));
        assert(bn.take(j + 1).map_values(|v: (Seq<char>, Seq<char>, Seq<char>, Seq<char>)| v.1) =~= bn.take(j as int).map_values(|v: (Seq<char>, Seq<char>, Seq<char>, Seq<char>)| v.1).push(bn[j as int].1));
        j += 1;
    }
    assert(bn.take(j as int) =~= bn);
    reorder(&by_name, &stable_order_exec(&paths))
}

/// `items` in the order given by `order` (a permutation of its indices).
fn reorder(items: &Vec<EngineeringSurface>, order: &Vec<usize>) -> (r: Vec<EngineeringSurface>)
    requires
        forall|k: int| 0 <= k < order@.len() ==> order@[k] < items@.len(),
    ensures
        r@.map_values(|s: EngineeringSurface| surface_view(s)) == permute(items@.map_values(|s: EngineeringSurface| surface_view(s)), order@.map_values(|i: usize| i as int)),
{
    let ghost iv = items@.map_values(|s: EngineeringSurface| surface_view(s));
    let ghost ov = order@.map_values(|i: usize| i as int);
    let mut r: Vec<EngineeringSurface> = Vec::new();
    let mut k: usize = 0;
    while k < order.len()
        invariant
            k <= order.len(),
            forall|q: int| 0 <= q < order@.len() ==> order@[q] < items@.len(),
            iv == items@.map_values(|s: EngineeringSurface| surface_view(s)),
            ov == order@.map_values(|i: usize| i as int),
            r@.map_values(|s: EngineeringSurface| surface_view(s)) == permute(iv, ov.take(k as int)),
        decreases order.len() - k,
    {
        let ghost r0 = r@.map_values(|s: EngineeringSurface| surface_view(s));
        let s = &items[order[k]];
        r.push(EngineeringSurface {
            surface: s.surface.clone(),
            path: s.path.clone(),
            provider: s.provider.clone(),
            instructions: s.instructions.clone(),
        });
        assert(r@.map_values(|s: EngineeringSurface| surface_view(s)) =~= r0.push(iv[order@[k as int] as int]));
        assert(permute(iv, ov.take(k + 1)) =~= permute(iv, ov.take(k as int)).push(iv[ov[k as int]]));
        k += 1;
    }
    assert(ov.take(k as int) =~= ov);
    r
}

// ---------------------------------------------------------------------------
// Detection
// ---------------------------------------------------------------------------

pub const MANIFEST_FIELDS_REASON: &'static str = ".engineering/project.json is missing required Engineering fields (need schema_version>=1, project, recipe, catalog_version, plan_fingerprint, components[1..] with surface/boilerplate/pin/destination)";
pub const MAP_FIELDS_REASON: &'static str = ".engineering/project-map.json is missing required Engineering fields (need schema_version>=1, surfaces{path,provider,instructions} min 1, relationships[])";
pub const UPGRADE_HINT: &'static str = " — upgrade aicontext or regenerate with a compatible Engineering Platform";

/// The schema version text of a file that was read as JSON.
pub open spec fn manifest_version_of(f: ContractFile<ManifestDoc>) -> Option<Seq<char>> {
    match f {
        ContractFile::Parsed(d) => sv(d.version_text),
        _ => None,
    }
}

pub open spec fn map_version_of(f: ContractFile<MapDoc>) -> Option<Seq<char>> {
    match f {
        ContractFile::Parsed(d) => sv(d.version_text),
        _ => None,
    }
}

/// `{file}{what} ({error})`.
pub open spec fn file_reason_spec(file: Seq<char>, what: Seq<char>, e: Seq<char>) -> Seq<char> {
    file + what + " ("@ + e + ")"@
}

pub open spec fn incomplete_reason(manifest_exists: bool) -> Seq<char> {
    let (present, missing) = if manifest_exists { (PROJECT_JSON@, PROJECT_MAP_JSON@) } else { (PROJECT_MAP_JSON@, PROJECT_JSON@) };
    "incomplete Engineering metadata: "@ + present + " present, "@ + missing + " missing — expected both "@ + PROJECT_JSON@ + " and "@ + PROJECT_MAP_JSON@
}

pub open spec fn version_unsupported_reason(file: Seq<char>, version: i64, supported: Seq<char>) -> Seq<char> {
    file + " schema_version "@ + signed_decimal(version as int) + " is not supported (supported: "@ + supported + ")"@ + UPGRADE_HINT@
}

/// Why the contracts are unusable, with the versions to report, or `None`
/// when both are absent or both are usable. Checked in order: partial
/// presence, unreadable files, invalid JSON, missing fields, unsupported
/// versions (manifest 1 or 2, map 1).
pub open spec fn unsupported_spec(m: ContractFile<ManifestDoc>, p: ContractFile<MapDoc>) -> Option<(Seq<char>, Option<Seq<char>>, Option<Seq<char>>)> {
    let m_exists = !(m is Missing);
    let p_exists = !(p is Missing);
    if !m_exists && !p_exists {
        None
    } else if !m_exists || !p_exists {
        Some((incomplete_reason(m_exists), manifest_version_of(m), map_version_of(p)))
    } else {
        match (m, p) {
            (ContractFile::Unreadable(e), _) => Some((file_reason_spec(PROJECT_JSON@, " is unreadable"@, e@), None, map_version_of(p))),
            (_, ContractFile::Unreadable(e)) => Some((file_reason_spec(PROJECT_MAP_JSON@, " is unreadable"@, e@), manifest_version_of(m), None)),
            (ContractFile::NotJson(e), _) => Some((file_reason_spec(PROJECT_JSON@, " is not valid JSON"@, e@), None, map_version_of(p))),
            (_, ContractFile::NotJson(e)) => Some((file_reason_spec(PROJECT_MAP_JSON@, " is not valid JSON"@, e@), manifest_version_of(m), None)),
            (ContractFile::Parsed(md), ContractFile::Parsed(pd)) => {
                let mv = sv(md.version_text);
                let pv = sv(pd.version_text);
                if !manifest_ok(md) {
                    Some((MANIFEST_FIELDS_REASON@, mv, pv))
                } else if !map_ok(pd) {
                    Some((MAP_FIELDS_REASON@, mv, pv))
                } else if !(md.schema_version->0 == 1 || md.schema_version->0 == 2) {
                    Some((version_unsupported_reason(PROJECT_JSON@, md.schema_version->0, "1, 2"@), mv, pv))
                } else if pd.schema_version->0 != 1 {
                    Some((version_unsupported_reason(PROJECT_MAP_JSON@, pd.schema_version->0, "1"@), mv, pv))
                } else {
                    None
                }
            },
            _ => None,
        }
    }
}

/// The facts a supported detection carries.
pub open spec fn info_matches(info: EngineeringInfo, md: ManifestDoc, pd: MapDoc, provenance_present: bool) -> bool {
    &&& info.project@ == non_empty(md.project)->0
    &&& info.recipe@ == non_empty(md.recipe)->0
    &&& sv(info.recipe_version) == sv(md.recipe_version)
    &&& info.catalog_version@ == non_empty(md.catalog_version)->0
    &&& sv(info.database_profile) == sv(md.database_profile)
    &&& info.plan_fingerprint@ == non_empty(md.plan_fingerprint)->0
    &&& info.surfaces@.map_values(|s: EngineeringSurface| surface_view(s)) == map_surfaces(pd.surfaces->0@)
    &&& info.manifest_schema_version == md.schema_version->0
    &&& info.map_schema_version == pd.schema_version->0
    &&& info.provenance_present == provenance_present
}

fn opt_str_clone(o: &Option<String>) -> (r: Option<String>)
    ensures
        sv(r) == sv(*o),
{
    match o {
        Some(s) => Some(s.clone()),
        None => None,
    }
}

fn manifest_version_exec(f: &ContractFile<ManifestDoc>) -> (r: Option<String>)
    ensures
        sv(r) == manifest_version_of(*f),
{
    match f {
        ContractFile::Parsed(d) => opt_str_clone(&d.version_text),
        _ => None,
    }
}

fn map_version_exec(f: &ContractFile<MapDoc>) -> (r: Option<String>)
    ensures
        sv(r) == map_version_of(*f),
{
    match f {
        ContractFile::Parsed(d) => opt_str_clone(&d.version_text),
        _ => None,
    }
}

fn unsupported(reason: String, manifest_version: Option<String>, map_version: Option<String>) -> (r: EngineeringDetection)
    ensures
        r matches EngineeringDetection::Unsupported { reason: a, manifest_version: b, map_version: c }
            && a@ == reason@ && sv(b) == sv(manifest_version) && sv(c) == sv(map_version),
{
    EngineeringDetection::Unsupported { reason, manifest_version, map_version }
}

fn file_reason(file: &str, what: &str, e: &str) -> (r: String)
    ensures
        r@ == file_reason_spec(file@, what@, e@),
{
    let mut s = string_from(file);
    push_str(&mut s, what);
    push_str(&mut s, " (");
    push_str(&mut s, e);
    push_str(&mut s, ")");
    s
}

fn version_reason(file: &str, version: i64, supported: &str) -> (r: String)
    ensures
        r@ == version_unsupported_reason(file@, version, supported@),
{
    let mut s = string_from(file);
    push_str(&mut s, " schema_version ");
    push_signed(&mut s, version);
    push_str(&mut s, " is not supported (supported: ");
    push_str(&mut s, supported);
    push_str(&mut s, ")");
    push_str(&mut s, UPGRADE_HINT);
    s
}

fn incomplete_reason_exec(manifest_exists: bool) -> (r: String)
    ensures
        r@ == incomplete_reason(manifest_exists),
{
    let mut s = string_from("incomplete Engineering metadata: ");
    push_str(&mut s, if manifest_exists { PROJECT_JSON } else { PROJECT_MAP_JSON });
    push_str(&mut s, " present, ");
    push_str(&mut s, if manifest_exists { PROJECT_MAP_JSON } else { PROJECT_JSON });
    push_str(&mut s, " missing — expected both ");
    push_str(&mut s, PROJECT_JSON);
    push_str(&mut s, " and ");
    push_str(&mut s, PROJECT_MAP_JSON);
    s
}

fn supported_info(md: &ManifestDoc, pd: &MapDoc, provenance_present: bool) -> (r: EngineeringInfo)
    requires
        manifest_ok(*md),
        map_ok(*pd),
    ensures
        info_matches(r, *md, *pd, provenance_present),
{
    let project = non_empty_exec(&md.project);
    let recipe = non_empty_exec(&md.recipe);
    let catalog = non_empty_exec(&md.catalog_version);
    let fingerprint = non_empty_exec(&md.plan_fingerprint);
    let surfaces = match &pd.surfaces {
        Some(ss) => surfaces_exec(ss),
        None => Vec::new(),
    };
    EngineeringInfo {
        project: match project { Some(x) => x, None => String::new() },
        recipe: match recipe { Some(x) => x, None => String::new() },
        recipe_version: opt_str_clone(&md.recipe_version),
        catalog_version: match catalog { Some(x) => x, None => String::new() },
        database_profile: opt_str_clone(&md.database_profile),
        plan_fingerprint: match fingerprint { Some(x) => x, None => String::new() },
        surfaces,
        manifest_schema_version: match md.schema_version { Some(v) => v, None => 0 },
        map_schema_version: match pd.schema_version { Some(v) => v, None => 0 },
        provenance_present,
    }
}

/// Deterministic Engineering detection from the two contract files.
/// Requires both `project.json` and `project-map.json`: with neither the
/// repository is standalone; anything short of two usable contracts is
/// unsupported, never standalone (see [`unsupported_spec`]).
pub fn detect(manifest: &ContractFile<ManifestDoc>, map: &ContractFile<MapDoc>, provenance_present: bool) -> (r: EngineeringDetection)
    ensures
        (manifest is Missing && map is Missing) <==> r is Absent,
        unsupported_spec(*manifest, *map) matches Some(t) ==> (r matches EngineeringDetection::Unsupported { reason, manifest_version, map_version }
            && reason@ == t.0 && sv(manifest_version) == t.1 && sv(map_version) == t.2),
        (!(manifest is Missing && map is Missing) && unsupported_spec(*manifest, *map) is None) ==> (r matches EngineeringDetection::Supported(info)
            && *manifest matches ContractFile::Parsed(md) && *map matches ContractFile::Parsed(pd)
            && info_matches(info, md, pd, provenance_present)),
{
    let m_exists = match manifest { ContractFile::Missing => false, _ => true };
    let p_exists = match map { ContractFile::Missing => false, _ => true };
    if !m_exists && !p_exists {
        return EngineeringDetection::Absent;
    }
    if !m_exists || !p_exists {
        return unsupported(incomplete_reason_exec(m_exists), manifest_version_exec(manifest), map_version_exec(map));
    }
    if let ContractFile::Unreadable(e) = manifest {
        return unsupported(file_reason(PROJECT_JSON, " is unreadable", e.as_str()), None, map_version_exec(map));
    }
    if let ContractFile::Unreadable(e) = map {
        return unsupported(file_reason(PROJECT_MAP_JSON, " is unreadable", e.as_str()), manifest_version_exec(manifest), None);
    }
    if let ContractFile::NotJson(e) = manifest {
        return unsupported(file_reason(PROJECT_JSON, " is not valid JSON", e.as_str()), None, map_version_exec(map));
    }
    if let ContractFile::NotJson(e) = map {
        return unsupported(file_reason(PROJECT_MAP_JSON, " is not valid JSON", e.as_str()), manifest_version_exec(manifest), None);
    }
    match (manifest, map) {
        (ContractFile::Parsed(md), ContractFile::Parsed(pd)) => {
            let mv = opt_str_clone(&md.version_text);
            let pv = opt_str_clone(&pd.version_text);
            if !manifest_ok_exec(md) {
                return unsupported(string_from(MANIFEST_FIELDS_REASON), mv, pv);
            }
            if !map_ok_exec(pd) {
                return unsupported(string_from(MAP_FIELDS_REASON), mv, pv);
            }
            let ms = match md.schema_version { Some(v) => v, None => 0 };
            let ps = match pd.schema_version { Some(v) => v, None => 0 };
            if !(ms == 1 || ms == 2) {
                return unsupported(version_reason(PROJECT_JSON, ms, "1, 2"), mv, pv);
            }
            if ps != 1 {
                return unsupported(version_reason(PROJECT_MAP_JSON, ps, "1"), mv, pv);
            }
            EngineeringDetection::Supported(supported_info(md, pd, provenance_present))
        },
        _ => EngineeringDetection::Absent,
    }
}

} // verus!
