//! The S+N++ remote registry protocol: endpoint URLs, the JSON index
//! document, its validation, version selection, and what a client makes of
//! an HTTP response. The transfer itself is left to the caller.

use vstd::prelude::*;
use crate::json::{
    json_model, lemma_items_model, lemma_members_model, members_model, items_model, parse_json, Json,
    JsonModel, json_of,
};
use crate::text::{
    all_digits, chars_of, decimal, decimal_string, digits_value, find_char, has_prefix, index_of,
    same_chars, same_text, slice_chars, starts_with, string_of_range,
};
use crate::version::{
    constraint_error, constraint_matches, constraint_of, constraint_text, version_error, version_le,
    version_lt, version_of, version_text, Constraint, Version,
};

verus! {

pub const PROTOCOL_VERSION: &'static str = "snp-registry-v1";

pub const INDEX_MEDIA_TYPE: &'static str = "application/vnd.snp.registry.index+json;v=1";

pub const METADATA_MEDIA_TYPE: &'static str = "application/vnd.snp.package.metadata+toml;v=1";

/// A dependency of a published version.
#[derive(Debug, Clone, PartialEq, Eq)]
pub struct IndexDependency {
    pub name: String,
    pub constraint: Constraint,
}

/// One published version of a package.
#[derive(Debug, Clone, PartialEq, Eq)]
pub struct IndexVersion {
    pub version: Version,
    pub metadata_url: String,
    pub archive_url: String,
    pub checksum: String,
    pub dependencies: Vec<IndexDependency>,
}

/// A package's index: every published version.
#[derive(Debug, Clone, PartialEq, Eq)]
pub struct IndexDocument {
    pub protocol: String,
    pub package: String,
    pub versions: Vec<IndexVersion>,
}

/// Why talking to the registry failed.
#[derive(Debug, Clone, PartialEq, Eq)]
pub enum RegistryError {
    HttpStatus(u16),
    Transport(String),
    Json(String),
    Protocol(String),
}

impl RegistryError {
    /// How the error is reported.
    pub fn message(&self) -> (r: String)
        ensures
            r@ == match self@ {
                RegistryFailure::HttpStatus(s) => "registry returned HTTP status "@ + decimal(s as nat),
                RegistryFailure::Transport(e) => "registry transport error: "@ + e,
                RegistryFailure::Json(e) => "invalid registry JSON: "@ + e,
                RegistryFailure::Protocol(e) => "registry protocol error: "@ + e,
            },
    {
        let (mut r, detail) = match self {
            RegistryError::HttpStatus(s) => (String::from_str("registry returned HTTP status "), decimal_string(*s as u64)),
            RegistryError::Transport(e) => (String::from_str("registry transport error: "), e.clone()),
            RegistryError::Json(e) => (String::from_str("invalid registry JSON: "), e.clone()),
            RegistryError::Protocol(e) => (String::from_str("registry protocol error: "), e.clone()),
        };
        r.append(detail.as_str());
        r
    }
}

/// A published version as the specifications see it.
pub struct VersionEntry {
    pub version: Version,
    pub metadata_url: Seq<char>,
    pub archive_url: Seq<char>,
    pub checksum: Seq<char>,
    pub dependencies: Seq<(Seq<char>, Constraint)>,
}

/// An index document as the specifications see it.
pub struct IndexModel {
    pub protocol: Seq<char>,
    pub package: Seq<char>,
    pub versions: Seq<VersionEntry>,
}

/// A registry error as the specifications see it.
pub enum RegistryFailure {
    HttpStatus(u16),
    Transport(Seq<char>),
    Json(Seq<char>),
    Protocol(Seq<char>),
}

impl View for IndexDependency {
    type V = (Seq<char>, Constraint);

    open spec fn view(&self) -> (Seq<char>, Constraint) {
        (self.name@, self.constraint)
    }
}

pub open spec fn dependencies_model(s: Seq<IndexDependency>) -> Seq<(Seq<char>, Constraint)> {
    s.map_values(|d: IndexDependency| d@)
}

impl View for IndexVersion {
    type V = VersionEntry;

    open spec fn view(&self) -> VersionEntry {
        VersionEntry {
            version: self.version,
            metadata_url: self.metadata_url@,
            archive_url: self.archive_url@,
            checksum: self.checksum@,
            dependencies: dependencies_model(self.dependencies@),
        }
    }
}

pub open spec fn versions_model(s: Seq<IndexVersion>) -> Seq<VersionEntry> {
    s.map_values(|v: IndexVersion| v@)
}

impl View for IndexDocument {
    type V = IndexModel;

    open spec fn view(&self) -> IndexModel {
        IndexModel { protocol: self.protocol@, package: self.package@, versions: versions_model(self.versions@) }
    }
}

impl View for RegistryError {
    type V = RegistryFailure;

    open spec fn view(&self) -> RegistryFailure {
        match self {
            RegistryError::HttpStatus(s) => RegistryFailure::HttpStatus(*s),
            RegistryError::Transport(m) => RegistryFailure::Transport(m@),
            RegistryError::Json(m) => RegistryFailure::Json(m@),
            RegistryError::Protocol(m) => RegistryFailure::Protocol(m@),
        }
    }
}

/// The first member of an object, from `i` on, with key `name`.
pub open spec fn field_from(o: Seq<(Seq<char>, JsonModel)>, name: Seq<char>, i: int) -> Option<JsonModel>
    decreases o.len() - i,
{
    if !(0 <= i < o.len()) {
        None
    } else if o[i].0 == name {
        Some(o[i].1)
    } else {
        field_from(o, name, i + 1)
    }
}

/// The value of an object's first member with key `name`.
pub open spec fn field_of(o: Seq<(Seq<char>, JsonModel)>, name: Seq<char>) -> Option<JsonModel> {
    field_from(o, name, 0)
}

pub open spec fn string_field_of(o: Seq<(Seq<char>, JsonModel)>, name: Seq<char>) -> Result<Seq<char>, Seq<char>> {
    match field_of(o, name) {
        None => Err("missing field `"@ + name + "`"@),
        Some(JsonModel::Str(s)) => Ok(s),
        Some(_) => Err("field `"@ + name + "` must be a string"@),
    }
}

/// A dependency entry: an object with a `name` and a `version` constraint.
pub open spec fn dependency_entry_of(j: JsonModel) -> Result<(Seq<char>, Constraint), Seq<char>> {
    match j {
        JsonModel::Object(o) => match string_field_of(o, "name"@) {
            Err(e) => Err(e),
            Ok(n) => match string_field_of(o, "version"@) {
                Err(e) => Err(e),
                Ok(t) => match constraint_of(t) {
                    None => Err(constraint_error(t)),
                    Some(c) => Ok((n, c)),
                },
            },
        },
        _ => Err("dependency entry must be an object"@),
    }
}

/// The dependency entries from `i` on, after those in `acc`; the first error stops.
pub open spec fn dependencies_from(items: Seq<JsonModel>, i: int, acc: Seq<(Seq<char>, Constraint)>) -> Result<Seq<(Seq<char>, Constraint)>, Seq<char>>
    decreases items.len() - i,
{
    if !(0 <= i < items.len()) {
        Ok(acc)
    } else {
        match dependency_entry_of(items[i]) {
            Err(e) => Err(e),
            Ok(d) => dependencies_from(items, i + 1, acc.push(d)),
        }
    }
}

/// A version entry. Its dependencies are read first, then its fields in the
/// order `version`, `metadata_url`, `archive_url`, `checksum`.
pub open spec fn version_entry_of(j: JsonModel) -> Result<VersionEntry, Seq<char>> {
    match j {
        JsonModel::Object(o) => {
            let deps = match field_of(o, "dependencies"@) {
                None => Ok(seq![]),
                Some(JsonModel::Array(items)) => dependencies_from(items, 0, seq![]),
                Some(_) => Err("field `dependencies` must be an array"@),
            };
            match deps {
                Err(e) => Err(e),
                Ok(ds) => match string_field_of(o, "version"@) {
                    Err(e) => Err(e),
                    Ok(vt) => match version_of(vt) {
                        None => Err(version_error(vt)),
                        Some(v) => match string_field_of(o, "metadata_url"@) {
                            Err(e) => Err(e),
                            Ok(m) => match string_field_of(o, "archive_url"@) {
                                Err(e) => Err(e),
                                Ok(a) => match string_field_of(o, "checksum"@) {
                                    Err(e) => Err(e),
                                    Ok(c) => Ok(VersionEntry { version: v, metadata_url: m, archive_url: a, checksum: c, dependencies: ds }),
                                },
                            },
                        },
                    },
                },
            }
        },
        _ => Err("version entry must be an object"@),
    }
}

/// The version entries from `i` on, after those in `acc`; the first error stops.
pub open spec fn versions_from(items: Seq<JsonModel>, i: int, acc: Seq<VersionEntry>) -> Result<Seq<VersionEntry>, Seq<char>>
    decreases items.len() - i,
{
    if !(0 <= i < items.len()) {
        Ok(acc)
    } else {
        match version_entry_of(items[i]) {
            Err(e) => Err(e),
            Ok(v) => versions_from(items, i + 1, acc.push(v)),
        }
    }
}

/// The index that a JSON value denotes.
pub open spec fn index_of_json(j: JsonModel) -> Result<IndexModel, Seq<char>> {
    match j {
        JsonModel::Object(o) => match string_field_of(o, "protocol"@) {
            Err(e) => Err(e),
            Ok(protocol) => match string_field_of(o, "package"@) {
                Err(e) => Err(e),
                Ok(package) => match field_of(o, "versions"@) {
                    None => Err("missing field `versions`"@),
                    Some(JsonModel::Array(items)) => match versions_from(items, 0, seq![]) {
                        Err(e) => Err(e),
                        Ok(versions) => Ok(IndexModel { protocol, package, versions }),
                    },
                    Some(_) => Err("field `versions` must be an array"@),
                },
            },
        },
        _ => Err("index root must be an object"@),
    }
}

/// The index that a document's text denotes, or the message of the JSON error it raises.
pub open spec fn index_document_of(text: Seq<char>) -> Result<IndexModel, Seq<char>> {
    match json_of(text) {
        Err(e) => Err(e),
        Ok(j) => index_of_json(j),
    }
}

/// The first member of `object` from `i` on with key `name`.
fn field<'a>(object: &'a Vec<(String, Json)>, name: &str) -> (r: Option<&'a Json>)
    ensures
        match field_of(members_model(object@), name@) {
            None => r is None,
            Some(v) => r is Some && json_model(*r->0) == v,
        },
{
    let ghost o = members_model(object@);
    proof {
        lemma_members_model(object@);
    }
    let mut i: usize = 0;
    while i < object.len()
        invariant
            o == members_model(object@),
            o.len() == object@.len(),
            forall|k: int| 0 <= k < o.len() ==> #[trigger] o[k] == (object@[k].0@, json_model(object@[k].1)),
            i <= object.len(),
            field_from(o, name@, i as int) == field_of(o, name@),
        decreases object.len() - i,
    {
        if same_text(object[i].0.as_str(), name) {
            return Some(&object[i].1);
        }
        i += 1;
    }
    None
}

fn string_field(object: &Vec<(String, Json)>, name: &str) -> (r: Result<String, String>)
    ensures
        match string_field_of(members_model(object@), name@) {
            Ok(s) => r is Ok && r->Ok_0@ == s,
            Err(e) => r is Err && r->Err_0@ == e,
        },
{
    match field(object, name) {
        Some(Json::Str(value)) => Ok(value.clone()),
        Some(_) => {
            let mut m = String::from_str("field `");
            m.append(name);
            m.append("` must be a string");
            Err(m)
        },
        None => {
            let mut m = String::from_str("missing field `");
            m.append(name);
            m.append("`");
            Err(m)
        },
    }
}

fn parse_dependency(value: &Json) -> (r: Result<IndexDependency, String>)
    ensures
        match dependency_entry_of(json_model(*value)) {
            Ok(d) => r is Ok && r->Ok_0@ == d,
            Err(e) => r is Err && r->Err_0@ == e,
        },
{
    match value {
        Json::Object(object) => {
            let name = string_field(object, "name")?;
            let text = string_field(object, "version")?;
            match Constraint::parse(text.as_str()) {
                Ok(constraint) => Ok(IndexDependency { name, constraint }),
                Err(e) => Err(e),
            }
        },
        _ => Err(String::from_str("dependency entry must be an object")),
    }
}

fn parse_version(value: &Json) -> (r: Result<IndexVersion, String>)
    ensures
        match version_entry_of(json_model(*value)) {
            Ok(v) => r is Ok && r->Ok_0@ == v,
            Err(e) => r is Err && r->Err_0@ == e,
        },
{
    let object = match value {
        Json::Object(object) => object,
        _ => {
            return Err(String::from_str("version entry must be an object"));
        },
    };
    let mut dependencies: Vec<IndexDependency> = Vec::new();
    assert(dependencies_model(dependencies@) =~= seq![]);
    match field(object, "dependencies") {
        None => {},
        Some(Json::Array(items)) => {
            let ghost js = items_model(items@);
            proof {
                lemma_items_model(items@);
            }
            let mut i: usize = 0;
            while i < items.len()
                invariant
                    json_model(*value) == JsonModel::Object(members_model(object@)),
                    field_of(members_model(object@), "dependencies"@) == Some(JsonModel::Array(js)),
                    js == items_model(items@),
                    js.len() == items@.len(),
                    forall|k: int| 0 <= k < js.len() ==> #[trigger] js[k] == json_model(items@[k]),
                    i <= items.len(),
                    dependencies_from(js, i as int, dependencies_model(dependencies@)) == dependencies_from(js, 0, seq![]),
                decreases items.len() - i,
            {
                let d = parse_dependency(&items[i])?;
                let ghost before = dependencies@;
                dependencies.push(d);
                assert(dependencies_model(dependencies@) =~= dependencies_model(before).push(d@));
                i += 1;
            }
        },
        Some(_) => {
            return Err(String::from_str("field `dependencies` must be an array"));
        },
    }
    let text = string_field(object, "version")?;
    let version = match Version::parse(text.as_str()) {
        Ok(v) => v,
        Err(e) => {
            return Err(e);
        },
    };
    let metadata_url = string_field(object, "metadata_url")?;
    let archive_url = string_field(object, "archive_url")?;
    let checksum = string_field(object, "checksum")?;
    Ok(IndexVersion { version, metadata_url, archive_url, checksum, dependencies })
}

fn index_from_json(root: &Json) -> (r: Result<IndexDocument, String>)
    ensures
        match index_of_json(json_model(*root)) {
            Ok(m) => r is Ok && r->Ok_0@ == m,
            Err(e) => r is Err && r->Err_0@ == e,
        },
{
    let object = match root {
        Json::Object(object) => object,
        _ => {
            return Err(String::from_str("index root must be an object"));
        },
    };
    let protocol = string_field(object, "protocol")?;
    let package = string_field(object, "package")?;
    let items = match field(object, "versions") {
        Some(Json::Array(items)) => items,
        Some(_) => {
            return Err(String::from_str("field `versions` must be an array"));
        },
        None => {
            return Err(String::from_str("missing field `versions`"));
        },
    };
    let ghost js = items_model(items@);
    proof {
        lemma_items_model(items@);
    }
    let mut versions: Vec<IndexVersion> = Vec::new();
    assert(versions_model(versions@) =~= seq![]);
    let mut i: usize = 0;
    while i < items.len()
        invariant
            json_model(*root) == JsonModel::Object(members_model(object@)),
            string_field_of(members_model(object@), "protocol"@) == Ok::<Seq<char>, Seq<char>>(protocol@),
            string_field_of(members_model(object@), "package"@) == Ok::<Seq<char>, Seq<char>>(package@),
            field_of(members_model(object@), "versions"@) == Some(JsonModel::Array(js)),
            js == items_model(items@),
            js.len() == items@.len(),
            forall|k: int| 0 <= k < js.len() ==> #[trigger] js[k] == json_model(items@[k]),
            i <= items.len(),
            versions_from(js, i as int, versions_model(versions@)) == versions_from(js, 0, seq![]),
        decreases items.len() - i,
    {
        let v = parse_version(&items[i])?;
        let ghost before = versions@;
        versions.push(v);
        assert(versions_model(versions@) =~= versions_model(before).push(v@));
        i += 1;
    }
    Ok(IndexDocument { protocol, package, versions })
}

/// Reads an index document.
pub fn parse_index_json(text: &str) -> (res: Result<IndexDocument, RegistryError>)
    ensures
        match index_document_of(text@) {
            Ok(m) => res is Ok && res->Ok_0@ == m,
            Err(e) => res is Err && res->Err_0@ == RegistryFailure::Json(e),
        },
{
    match parse_json(text) {
        Err(e) => Err(RegistryError::Json(e)),
        Ok(root) => match index_from_json(&root) {
            Ok(index) => Ok(index),
            Err(e) => Err(RegistryError::Json(e)),
        },
    }
}

/// A lowercase hexadecimal digit.
pub open spec fn is_lower_hex(c: char) -> bool {
    ('0' <= c && c <= '9') || ('a' <= c && c <= 'f')
}

/// A checksum of the form `sha256:<lowercase-hex>`, with at least one digit.
pub open spec fn checksum_valid(s: Seq<char>) -> bool {
    &&& has_prefix(s, "sha256:"@)
    &&& s.len() > "sha256:"@.len()
    &&& forall|k: int| "sha256:"@.len() <= k < s.len() ==> is_lower_hex(#[trigger] s[k])
}

/// Whether a checksum has the form `sha256:<lowercase-hex>`.
fn checksum_ok(checksum: &str) -> (r: bool)
    ensures
        r == checksum_valid(checksum@),
{
    let t = chars_of(checksum);
    let prefix = chars_of("sha256:");
    if !starts_with(t.as_slice(), prefix.as_slice()) || t.len() == prefix.len() {
        return false;
    }
    let mut k: usize = prefix.len();
    while k < t.len()
        invariant
            t@ == checksum@,
            prefix@ == "sha256:"@,
            prefix.len() <= k <= t.len(),
            forall|j: int| prefix.len() <= j < k ==> is_lower_hex(#[trigger] t@[j]),
        decreases t.len() - k,
    {
        let c = t[k];
        if !(('0' <= c && c <= '9') || ('a' <= c && c <= 'f')) {
            return false;
        }
        k += 1;
    }
    true
}

/// Whether a published version has both URLs and a `sha256:<lowercase-hex>` checksum.
pub open spec fn version_complete(v: VersionEntry) -> bool {
    v.metadata_url.len() > 0 && v.archive_url.len() > 0 && checksum_valid(v.checksum)
}

/// The first problem with the versions from `i` on.
pub open spec fn version_problem(package: Seq<char>, vs: Seq<VersionEntry>, i: int) -> Option<Seq<char>>
    decreases vs.len() - i,
{
    if !(0 <= i < vs.len()) {
        None
    } else if vs[i].metadata_url.len() == 0 || vs[i].archive_url.len() == 0 {
        Some("registry index `"@ + package + "` has incomplete version "@ + version_text(vs[i].version))
    } else if !checksum_valid(vs[i].checksum) {
        Some("registry index `"@ + package + "` version "@ + version_text(vs[i].version) + " has invalid checksum"@)
    } else {
        version_problem(package, vs, i + 1)
    }
}

/// The first problem that validation reports for an index, if any.
pub open spec fn index_problem(m: IndexModel) -> Option<Seq<char>> {
    if m.protocol != PROTOCOL_VERSION@ {
        Some("unsupported registry protocol `"@ + m.protocol + "`"@)
    } else if m.package.len() == 0 {
        Some("registry index package name is empty"@)
    } else if m.versions.len() == 0 {
        Some("registry index for `"@ + m.package + "` has no versions"@)
    } else {
        version_problem(m.package, m.versions, 0)
    }
}

/// A valid index speaks this protocol, names a package, and lists at least
/// one version, each complete.
pub open spec fn index_valid(m: IndexModel) -> bool {
    &&& m.protocol == PROTOCOL_VERSION@
    &&& m.package.len() > 0
    &&& m.versions.len() > 0
    &&& forall|k: int| 0 <= k < m.versions.len() ==> version_complete(#[trigger] m.versions[k])
}

/// The version at `k` satisfies `c`, no satisfying version is higher, and
/// every satisfying version after it is lower: of equally high ones, the last.
pub open spec fn is_best_match(vs: Seq<VersionEntry>, c: Constraint, k: int) -> bool {
    &&& 0 <= k < vs.len()
    &&& constraint_matches(c, vs[k].version)
    &&& forall|j: int| 0 <= j < vs.len() && constraint_matches(c, #[trigger] vs[j].version) ==> version_le(vs[j].version, vs[k].version)
    &&& forall|j: int| k < j < vs.len() && constraint_matches(c, #[trigger] vs[j].version) ==> version_lt(vs[j].version, vs[k].version)
}

pub open spec fn some_match(vs: Seq<VersionEntry>, c: Constraint) -> bool {
    exists|j: int| 0 <= j < vs.len() && constraint_matches(c, #[trigger] vs[j].version)
}

/// The version selected for a constraint does not depend on the order in
/// which the index lists its versions: two lists with the same entries give
/// the same version.
pub proof fn law_selection_ignores_order(vs1: Seq<VersionEntry>, vs2: Seq<VersionEntry>, c: Constraint, k1: int, k2: int)
    requires
        forall|e: VersionEntry| vs1.contains(e) <==> vs2.contains(e),
        is_best_match(vs1, c, k1),
        is_best_match(vs2, c, k2),
    ensures
        vs1[k1].version == vs2[k2].version,
{
    assert(vs1.contains(vs1[k1]));
    let j2 = choose|j: int| 0 <= j < vs2.len() && vs2[j] == vs1[k1];
    assert(constraint_matches(c, vs2[j2].version));
    assert(vs2.contains(vs2[k2]));
    let j1 = choose|j: int| 0 <= j < vs1.len() && vs1[j] == vs2[k2];
    assert(constraint_matches(c, vs1[j1].version));
}

impl IndexDocument {
    /// Checks the protocol, the package name, and every version's URLs and checksum.
    pub fn validate(&self) -> (r: Result<(), String>)
        ensures
            match index_problem(self@) {
                Some(m) => r is Err && r->Err_0@ == m,
                None => r is Ok,
            },
            r is Ok <==> index_valid(self@),
    {
        let ghost m = self@;
        if !same_text(self.protocol.as_str(), PROTOCOL_VERSION) {
            let mut e = String::from_str("unsupported registry protocol `");
            e.append(self.protocol.as_str());
            e.append("`");
            return Err(e);
        }
        if self.package.as_str().is_empty() {
            return Err(String::from_str("registry index package name is empty"));
        }
        if self.versions.len() == 0 {
            let mut e = String::from_str("registry index for `");
            e.append(self.package.as_str());
            e.append("` has no versions");
            return Err(e);
        }
        let mut i: usize = 0;
        while i < self.versions.len()
            invariant
                m == self@,
                i <= self.versions@.len(),
                m.versions.len() == self.versions@.len(),
                index_problem(m) == version_problem(m.package, m.versions, i as int),
                forall|k: int| 0 <= k < i ==> version_complete(#[trigger] m.versions[k]),
            decreases self.versions.len() - i,
        {
            let v = &self.versions[i];
            assert(m.versions[i as int] == v@);
            if v.metadata_url.as_str().is_empty() || v.archive_url.as_str().is_empty() {
                let mut e = String::from_str("registry index `");
                e.append(self.package.as_str());
                e.append("` has incomplete version ");
                e.append(v.version.to_text().as_str());
                return Err(e);
            }
            if !checksum_ok(v.checksum.as_str()) {
                let mut e = String::from_str("registry index `");
                e.append(self.package.as_str());
                e.append("` version ");
                e.append(v.version.to_text().as_str());
                e.append(" has invalid checksum");
                return Err(e);
            }
            i += 1;
        }
        Ok(())
    }

    /// The highest version that satisfies the constraint, after validation.
    /// Of equally high versions the last listed is chosen.
    pub fn highest_matching(&self, constraint: &Constraint) -> (res: Result<&IndexVersion, String>)
        ensures
            match index_problem(self@) {
                Some(m) => res is Err && res->Err_0@ == m,
                None => if some_match(self@.versions, *constraint) {
                    res is Ok && exists|k: int| is_best_match(self@.versions, *constraint, k) && *res->Ok_0 == self.versions@[k]
                } else {
                    res is Err && res->Err_0@ == "no registry version of `"@ + self.package@ + "` satisfies "@
                        + constraint_text(*constraint)
                },
            },
    {
        self.validate()?;
        let ghost vs = self@.versions;
        let mut best: Option<usize> = None;
        let mut i: usize = 0;
        while i < self.versions.len()
            invariant
                vs == self@.versions,
                vs.len() == self.versions@.len(),
                i <= vs.len(),
                forall|k: int| 0 <= k < vs.len() ==> #[trigger] vs[k] == self.versions@[k]@,
                match best {
                    None => forall|j: int| 0 <= j < i ==> !constraint_matches(*constraint, #[trigger] vs[j].version),
                    Some(b) => {
                        &&& b < i
                        &&& constraint_matches(*constraint, vs[b as int].version)
                        &&& forall|j: int| 0 <= j < i && constraint_matches(*constraint, #[trigger] vs[j].version)
                            ==> version_le(vs[j].version, vs[b as int].version)
                        &&& forall|j: int| b < j < i && constraint_matches(*constraint, #[trigger] vs[j].version)
                            ==> version_lt(vs[j].version, vs[b as int].version)
                    },
                },
            decreases self.versions.len() - i,
        {
            assert(vs[i as int] == self.versions@[i as int]@);
            if constraint.matches(&self.versions[i].version) {
                match best {
                    None => {
                        best = Some(i);
                    },
                    Some(b) => {
                        if !self.versions[i].version.before(&self.versions[b].version) {
                            best = Some(i);
                        }
                    },
                }
            }
            i += 1;
        }
        match best {
            Some(b) => {
                assert(is_best_match(vs, *constraint, b as int));
                Ok(&self.versions[b])
            },
            None => {
                let mut e = String::from_str("no registry version of `");
                e.append(self.package.as_str());
                e.append("` satisfies ");
                e.append(constraint.to_text().as_str());
                Err(e)
            },
        }
    }
}

/// `s` without its trailing slashes (`str::trim_end_matches('/')`).
pub open spec fn trim_slashes(s: Seq<char>) -> Seq<char>
    decreases s.len(),
{
    if s.len() > 0 && s.last() == '/' {
        trim_slashes(s.drop_last())
    } else {
        s
    }
}

/// Where a registry is and how the client presents itself.
#[derive(Debug, Clone, PartialEq, Eq)]
pub struct RegistryClientConfig {
    pub base_url: String,
    pub cache_dir: String,
    pub user_agent: String,
}

impl RegistryClientConfig {
    /// A configuration for the registry at `base_url`, whose trailing slashes are dropped.
    pub fn new(base_url: &str, cache_dir: &str) -> (c: Self)
        ensures
            c.base_url@ == trim_slashes(base_url@),
            c.cache_dir@ == cache_dir@,
            c.user_agent@ == "snp/"@ + PROTOCOL_VERSION@,
    {
        let t = chars_of(base_url);
        let mut k: usize = t.len();
        assert(t@.take(k as int) =~= t@);
        while k > 0 && t[k - 1] == '/'
            invariant
                t@ == base_url@,
                k <= t.len(),
                trim_slashes(t@.take(k as int)) == trim_slashes(base_url@),
            decreases k,
        {
            assert(t@.take(k as int).drop_last() =~= t@.take(k - 1));
            k -= 1;
        }
        let base = string_of_range(&t, 0, k);
        assert(base@ =~= t@.take(k as int));
        let mut user_agent = String::from_str("snp/");
        user_agent.append(PROTOCOL_VERSION);
        RegistryClientConfig { base_url: base, cache_dir: String::from_str(cache_dir), user_agent }
    }

    /// `{base}/v1/index/{package}.json`
    pub fn index_url(&self, package: &str) -> (r: String)
        ensures
            r@ == self.base_url@ + "/v1/index/"@ + package@ + ".json"@,
    {
        let mut r = self.base_url.clone();
        r.append("/v1/index/");
        r.append(package);
        r.append(".json");
        r
    }

    /// `{base}/v1/packages/{package}/{version}/snp.toml`
    pub fn metadata_url(&self, package: &str, version: &Version) -> (r: String)
        ensures
            r@ == self.base_url@ + "/v1/packages/"@ + package@ + "/"@ + version_text(*version) + "/snp.toml"@,
    {
        let mut r = self.base_url.clone();
        r.append("/v1/packages/");
        r.append(package);
        r.append("/");
        r.append(version.to_text().as_str());
        r.append("/snp.toml");
        r
    }

    /// `{base}/v1/packages/{package}/{version}/download`
    pub fn archive_url(&self, package: &str, version: &Version) -> (r: String)
        ensures
            r@ == self.base_url@ + "/v1/packages/"@ + package@ + "/"@ + version_text(*version) + "/download"@,
    {
        let mut r = self.base_url.clone();
        r.append("/v1/packages/");
        r.append(package);
        r.append("/");
        r.append(version.to_text().as_str());
        r.append("/download");
        r
    }
}

/// The base URL of a configuration never ends with a slash, and building a
/// configuration from its own base URL keeps that URL.
pub proof fn law_base_url_trimmed(s: Seq<char>)
    ensures
        !(trim_slashes(s).len() > 0 && trim_slashes(s).last() == '/'),
        trim_slashes(trim_slashes(s)) == trim_slashes(s),
    decreases s.len(),
{
    if s.len() > 0 && s.last() == '/' {
        law_base_url_trimmed(s.drop_last());
    }
}

/// A registry response as the specifications see it.
pub open spec fn response_model(r: Result<(u16, String), RegistryError>) -> Result<(u16, Seq<char>), RegistryFailure> {
    match r {
        Ok((status, body)) => Ok((status, body@)),
        Err(e) => Err(e@),
    }
}

/// What a client makes of the registry's answer to an index request for `package`.
pub open spec fn fetch_outcome(package: Seq<char>, response: Result<(u16, Seq<char>), RegistryFailure>) -> Result<IndexModel, RegistryFailure> {
    match response {
        Err(e) => Err(e),
        Ok((status, body)) => if !(200 <= status < 300) {
            Err(RegistryFailure::HttpStatus(status))
        } else {
            match index_document_of(body) {
                Err(e) => Err(RegistryFailure::Json(e)),
                Ok(m) => if m.package != package {
                    Err(RegistryFailure::Protocol("requested `"@ + package + "`, response contains `"@ + m.package + "`"@))
                } else {
                    match index_problem(m) {
                        Some(p) => Err(RegistryFailure::Protocol(p)),
                        None => Ok(m),
                    }
                },
            }
        },
    }
}

/// A client of a registry over HTTP.
pub struct HttpRegistryClient {
    config: RegistryClientConfig,
}

impl HttpRegistryClient {
    /// The configuration the client was made with.
    pub closed spec fn settings(&self) -> RegistryClientConfig {
        self.config
    }

    pub fn new(config: RegistryClientConfig) -> (c: Self)
        ensures
            c.settings() == config,
    {
        HttpRegistryClient { config }
    }

    pub fn config(&self) -> (r: &RegistryClientConfig)
        ensures
            *r == self.settings(),
    {
        &self.config
    }

    /// Judges the answer to a request for `package`'s index (at
    /// `self.config().index_url(package)`): a transfer error stands, a status
    /// outside 200..300 is refused, and the body must be a valid index of that
    /// very package.
    pub fn fetch_index(&self, package: &str, response: Result<(u16, String), RegistryError>) -> (res: Result<IndexDocument, RegistryError>)
        ensures
            match fetch_outcome(package@, response_model(response)) {
                Ok(m) => res is Ok && res->Ok_0@ == m,
                Err(f) => res is Err && res->Err_0@ == f,
            },
            res is Ok ==> res->Ok_0.package@ == package@ && index_valid(res->Ok_0@),
    {
        let (status, body) = match response {
            Ok(pair) => pair,
            Err(e) => {
                return Err(e);
            },
        };
        if !(200 <= status && status < 300) {
            return Err(RegistryError::HttpStatus(status));
        }
        let index = parse_index_json(body.as_str())?;
        if !same_text(index.package.as_str(), package) {
            let mut m = String::from_str("requested `");
            m.append(package);
            m.append("`, response contains `");
            m.append(index.package.as_str());
            m.append("`");
            return Err(RegistryError::Protocol(m));
        }
        match index.validate() {
            Ok(()) => Ok(index),
            Err(m) => Err(RegistryError::Protocol(m)),
        }
    }
}

/// The index of the last `c` in `t` before `j`, or -1.
pub open spec fn last_index(t: Seq<char>, c: char, j: int) -> int
    decreases j,
{
    if j <= 0 || j > t.len() {
        -1
    } else if t[j - 1] == c {
        j - 1
    } else {
        last_index(t, c, j - 1)
    }
}

/// What `u16::from_str` accepts: an optional `+`, then decimal digits whose value fits.
pub open spec fn status_value(s: Seq<char>) -> Option<u16> {
    let d = if s.len() > 0 && s[0] == '+' { s.skip(1) } else { s };
    if d.len() > 0 && all_digits(d) && digits_value(d) <= u16::MAX {
        Some(digits_value(d) as u16)
    } else {
        None
    }
}

/// The text of the error that `str::parse::<u16>` gives for a text it refuses
/// (`ParseIntError`'s `Display`, which depends on the text alone).
pub uninterp spec fn status_error_text(s: Seq<char>) -> Seq<char>;

/// `str::parse::<u16>`, with the error rendered as text. Its documentation
/// fixes which texts it accepts and their value; the error's wording is named
/// by `status_error_text`.
#[verifier::external_body]
fn parse_status(s: &str) -> (r: Result<u16, String>)
    ensures
        match status_value(s@) {
            Some(v) => r == Ok::<u16, String>(v),
            None => r is Err && r->Err_0@ == status_error_text(s@),
        },
{
    match s.parse::<u16>() {
        Ok(v) => Ok(v),
        Err(e) => Err(e.to_string()),
    }
}

/// Splits what the transfer printed, the body followed by a newline and the
/// HTTP status code, into status and body.
pub fn read_response(text: &str) -> (res: Result<(u16, String), RegistryError>)
    ensures
        ({
            let t = text@;
            let k = last_index(t, '\n', t.len() as int);
            if k < 0 {
                res is Err && res->Err_0@ == RegistryFailure::Transport("HTTP response did not include status"@)
            } else {
                match status_value(t.skip(k + 1)) {
                    Some(s) => res is Ok && res->Ok_0.0 == s && res->Ok_0.1@ == t.take(k),
                    None => res is Err && res->Err_0@ == RegistryFailure::Transport(status_error_text(t.skip(k + 1))),
                }
            }
        }),
{
    let t = chars_of(text);
    let mut j: usize = t.len();
    while j > 0 && t[j - 1] != '\n'
        invariant
            t@ == text@,
            j <= t.len(),
            last_index(t@, '\n', j as int) == last_index(t@, '\n', t@.len() as int),
        decreases j,
    {
        j -= 1;
    }
    if j == 0 {
        return Err(RegistryError::Transport(String::from_str("HTTP response did not include status")));
    }
    let k = j - 1;
    let status_text = string_of_range(&t, j, t.len());
    assert(status_text@ =~= text@.skip(k + 1));
    match parse_status(status_text.as_str()) {
        Ok(status) => {
            let body = string_of_range(&t, 0, k);
            assert(body@ =~= text@.take(k as int));
            Ok((status, body))
        },
        Err(e) => Err(RegistryError::Transport(e)),
    }
}

/// The host (with any port) of an `https://` URL: what follows the scheme, up
/// to the next `/`.
pub open spec fn https_host(u: Seq<char>) -> Seq<char> {
    u.subrange(8, find_char(u, '/', 8))
}

/// A redirect the client follows: from an `https://` registry to an
/// `https://` location on the same host.
pub open spec fn redirect_ok(base: Seq<char>, location: Seq<char>) -> bool {
    &&& has_prefix(base, "https://"@)
    &&& has_prefix(location, "https://"@)
    &&& https_host(base).len() > 0
    &&& https_host(location) == https_host(base)
}

/// The host part of an `https://` URL.
fn host_of(u: &Vec<char>) -> (r: Vec<char>)
    requires
        u.len() >= 8,
    ensures
        r@ == https_host(u@),
{
    let end = index_of(u, '/', 8);
    slice_chars(u, 8, end)
}

/// Whether the client follows a redirect from the registry at `base_url` to `location`.
pub fn redirect_allowed(base_url: &str, location: &str) -> (r: bool)
    ensures
        r == redirect_ok(base_url@, location@),
{
    proof {
        reveal_strlit("https://");
    }
    let b = chars_of(base_url);
    let l = chars_of(location);
    let scheme = chars_of("https://");
    if !starts_with(b.as_slice(), scheme.as_slice()) || !starts_with(l.as_slice(), scheme.as_slice()) {
        return false;
    }
    let hb = host_of(&b);
    let hl = host_of(&l);
    hb.len() > 0 && same_chars(hl.as_slice(), hb.as_slice())
}

/// The most redirects the client follows for one request.
pub const MAX_REDIRECTS: usize = 50;

/// What the client does after a response.
pub enum Transfer {
    /// The response is the answer.
    Done,
    /// Request this location next.
    Follow(String),
    /// Stop with this error.
    Refused(RegistryError),
}

/// What the client does after a response, as the specifications see it.
pub enum TransferStep {
    Done,
    Follow(Seq<char>),
    Refused(RegistryFailure),
}

impl View for Transfer {
    type V = TransferStep;

    open spec fn view(&self) -> TransferStep {
        match self {
            Transfer::Done => TransferStep::Done,
            Transfer::Follow(u) => TransferStep::Follow(u@),
            Transfer::Refused(e) => TransferStep::Refused(e@),
        }
    }
}

/// The step after a response with `status` and redirect `location` (empty
/// when there is none), `redirects` redirects having been followed.
pub open spec fn next_transfer(base: Seq<char>, redirects: nat, status: u16, location: Seq<char>) -> TransferStep {
    if !(300 <= status < 400) || location.len() == 0 {
        TransferStep::Done
    } else if redirects >= MAX_REDIRECTS {
        TransferStep::Refused(RegistryFailure::Transport("too many registry redirects"@))
    } else if redirect_ok(base, location) {
        TransferStep::Follow(location)
    } else {
        TransferStep::Refused(RegistryFailure::Protocol("registry redirect to `"@ + location + "` leaves the registry origin"@))
    }
}

/// Decides what the client does after a response: a redirect is followed
/// only to `https://` on the registry's own host, and at most `MAX_REDIRECTS` times.
pub fn after_response(base_url: &str, redirects: usize, status: u16, location: &str) -> (r: Transfer)
    ensures
        r@ == next_transfer(base_url@, redirects as nat, status, location@),
{
    if !(300 <= status && status < 400) || location.is_empty() {
        Transfer::Done
    } else if redirects >= MAX_REDIRECTS {
        Transfer::Refused(RegistryError::Transport(String::from_str("too many registry redirects")))
    } else if redirect_allowed(base_url, location) {
        Transfer::Follow(String::from_str(location))
    } else {
        let mut m = String::from_str("registry redirect to `");
        m.append(location);
        m.append("` leaves the registry origin");
        Transfer::Refused(RegistryError::Protocol(m))
    }
}

/// Splits the rest of a response, the body followed by a line break and the
/// redirect location (empty when there is none), into body and location.
pub fn split_redirect(rest: &str) -> (r: (String, String))
    ensures
        ({
            let t = rest@;
            let k = last_index(t, '\n', t.len() as int);
            if k < 0 {
                r.0@ == t && r.1@ == Seq::<char>::empty()
            } else {
                r.0@ == t.take(k) && r.1@ == t.skip(k + 1)
            }
        }),
{
    let t = chars_of(rest);
    let mut j: usize = t.len();
    while j > 0 && t[j - 1] != '\n'
        invariant
            t@ == rest@,
            j <= t.len(),
            last_index(t@, '\n', j as int) == last_index(t@, '\n', t@.len() as int),
        decreases j,
    {
        j -= 1;
    }
    if j == 0 {
        return (String::from_str(rest), String::new());
    }
    let body = string_of_range(&t, 0, j - 1);
    let location = string_of_range(&t, j, t.len());
    assert(body@ =~= rest@.take(j - 1));
    assert(location@ =~= rest@.skip(j as int));
    (body, location)
}

} // verus!
