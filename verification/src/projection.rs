//! Dependency projections — functions over world state whose values matter
//! to artifacts. The most important type in the architecture.
use vstd::prelude::*;

use crate::canonical::{framed, write_str};
use crate::error::DomainError;
use crate::hash::blake3_digest;
use crate::ids::{BlobId, ContentHash, HashAlgo, ProjectionId, ProjectionObservationId, SnapshotId};
use crate::text::{blank, is_blank, owned, push_str, utf8};

verus! {

/// The property a projection queries. Kept aligned with
/// [`ProjectionKind`] so the two can never disagree.
#[derive(Debug, Clone, Copy, PartialEq, Eq, Structural, Hash)]
pub enum Property {
    /// Content of a file.
    Content,
    /// Definition of a symbol.
    Definition,
    /// Signature of a symbol.
    Signature,
    /// The set of references to a symbol.
    ReferenceSet,
    /// The set of callers of a symbol.
    CallerSet,
    /// The set of implementations of a trait/protocol/interface.
    ImplementationSet,
    /// The import set of a module.
    ImportSet,
    /// The set of subclasses of a symbol.
    SubclassSet,
    /// Result of a repository search.
    SearchResult,
    /// Value of a configuration key.
    ConfigValue,
    /// Version of a selected tool.
    ToolVersion,
}

/// The kind of a dependency projection.
#[derive(Debug, Clone, Copy, PartialEq, Eq, Structural, Hash)]
pub enum ProjectionKind {
    /// Content of a tracked file.
    FileContent,
    /// Definition of a symbol.
    Definition,
    /// Signature of a symbol.
    Signature,
    /// References to a symbol within a scope.
    References,
    /// Callers of a symbol within a scope.
    Callers,
    /// Implementations of a trait/protocol/interface within a scope.
    Implementations,
    /// Imports of a module within a scope.
    Imports,
    /// Subclasses of a symbol within a scope.
    Subclasses,
    /// Repository text/pattern search within a scope.
    RepositorySearch,
    /// A selected configuration value.
    ConfigValue,
    /// A selected tool/runtime version.
    ToolVersion,
}

/// The unique property of each kind.
pub open spec fn kind_property(k: ProjectionKind) -> Property {
    match k {
        ProjectionKind::FileContent => Property::Content,
        ProjectionKind::Definition => Property::Definition,
        ProjectionKind::Signature => Property::Signature,
        ProjectionKind::References => Property::ReferenceSet,
        ProjectionKind::Callers => Property::CallerSet,
        ProjectionKind::Implementations => Property::ImplementationSet,
        ProjectionKind::Imports => Property::ImportSet,
        ProjectionKind::Subclasses => Property::SubclassSet,
        ProjectionKind::RepositorySearch => Property::SearchResult,
        ProjectionKind::ConfigValue => Property::ConfigValue,
        ProjectionKind::ToolVersion => Property::ToolVersion,
    }
}

/// The kind each property belongs to.
pub open spec fn property_kind(p: Property) -> ProjectionKind {
    match p {
        Property::Content => ProjectionKind::FileContent,
        Property::Definition => ProjectionKind::Definition,
        Property::Signature => ProjectionKind::Signature,
        Property::ReferenceSet => ProjectionKind::References,
        Property::CallerSet => ProjectionKind::Callers,
        Property::ImplementationSet => ProjectionKind::Implementations,
        Property::ImportSet => ProjectionKind::Imports,
        Property::SubclassSet => ProjectionKind::Subclasses,
        Property::SearchResult => ProjectionKind::RepositorySearch,
        Property::ConfigValue => ProjectionKind::ConfigValue,
        Property::ToolVersion => ProjectionKind::ToolVersion,
    }
}

/// Kinds and properties are in one-to-one correspondence:
/// `kind(for_kind(k)) == k` and `for_kind(kind(p)) == p`.
pub proof fn lemma_kind_property_bijection(k: ProjectionKind, p: Property)
    ensures
        property_kind(kind_property(k)) == k,
        kind_property(property_kind(p)) == p,
{
}

impl Property {
    /// The unique property consistent with `kind`. Every constructor routes
    /// through this, so a constructed projection can never carry a
    /// mismatched pair.
    pub fn for_kind(kind: ProjectionKind) -> (r: Option<Property>)
        ensures
            r == Some(kind_property(kind)),
    {
        Some(
            match kind {
                ProjectionKind::FileContent => Property::Content,
                ProjectionKind::Definition => Property::Definition,
                ProjectionKind::Signature => Property::Signature,
                ProjectionKind::References => Property::ReferenceSet,
                ProjectionKind::Callers => Property::CallerSet,
                ProjectionKind::Implementations => Property::ImplementationSet,
                ProjectionKind::Imports => Property::ImportSet,
                ProjectionKind::Subclasses => Property::SubclassSet,
                ProjectionKind::RepositorySearch => Property::SearchResult,
                ProjectionKind::ConfigValue => Property::ConfigValue,
                ProjectionKind::ToolVersion => Property::ToolVersion,
            },
        )
    }

    /// The kind this property belongs to.
    pub fn kind(self) -> (r: ProjectionKind)
        ensures
            r == property_kind(self),
    {
        match self {
            Property::Content => ProjectionKind::FileContent,
            Property::Definition => ProjectionKind::Definition,
            Property::Signature => ProjectionKind::Signature,
            Property::ReferenceSet => ProjectionKind::References,
            Property::CallerSet => ProjectionKind::Callers,
            Property::ImplementationSet => ProjectionKind::Implementations,
            Property::ImportSet => ProjectionKind::Imports,
            Property::SubclassSet => ProjectionKind::Subclasses,
            Property::SearchResult => ProjectionKind::RepositorySearch,
            Property::ConfigValue => ProjectionKind::ConfigValue,
            Property::ToolVersion => ProjectionKind::ToolVersion,
        }
    }
}

/// The canonical keyword of each kind.
pub open spec fn kind_keyword(k: ProjectionKind) -> Seq<char> {
    match k {
        ProjectionKind::FileContent => "file"@,
        ProjectionKind::Definition => "definition"@,
        ProjectionKind::Signature => "signature"@,
        ProjectionKind::References => "references"@,
        ProjectionKind::Callers => "callers"@,
        ProjectionKind::Implementations => "implementations"@,
        ProjectionKind::Imports => "imports"@,
        ProjectionKind::Subclasses => "subclasses"@,
        ProjectionKind::RepositorySearch => "repository_search"@,
        ProjectionKind::ConfigValue => "config_value"@,
        ProjectionKind::ToolVersion => "tool_version"@,
    }
}

/// The variant name of a kind, as its derived `Debug` prints it.
pub open spec fn kind_name(k: ProjectionKind) -> Seq<char> {
    match k {
        ProjectionKind::FileContent => "FileContent"@,
        ProjectionKind::Definition => "Definition"@,
        ProjectionKind::Signature => "Signature"@,
        ProjectionKind::References => "References"@,
        ProjectionKind::Callers => "Callers"@,
        ProjectionKind::Implementations => "Implementations"@,
        ProjectionKind::Imports => "Imports"@,
        ProjectionKind::Subclasses => "Subclasses"@,
        ProjectionKind::RepositorySearch => "RepositorySearch"@,
        ProjectionKind::ConfigValue => "ConfigValue"@,
        ProjectionKind::ToolVersion => "ToolVersion"@,
    }
}

impl ProjectionKind {
    /// The variant name of the kind.
    pub fn name(self) -> (r: &'static str)
        ensures
            r@ == kind_name(self),
    {
        match self {
            ProjectionKind::FileContent => "FileContent",
            ProjectionKind::Definition => "Definition",
            ProjectionKind::Signature => "Signature",
            ProjectionKind::References => "References",
            ProjectionKind::Callers => "Callers",
            ProjectionKind::Implementations => "Implementations",
            ProjectionKind::Imports => "Imports",
            ProjectionKind::Subclasses => "Subclasses",
            ProjectionKind::RepositorySearch => "RepositorySearch",
            ProjectionKind::ConfigValue => "ConfigValue",
            ProjectionKind::ToolVersion => "ToolVersion",
        }
    }
}

/// Kinds that can assert absence/completeness claims and therefore bind to
/// a universe + coverage certificate.
pub open spec fn completeness_sensitive(k: ProjectionKind) -> bool {
    ||| k == ProjectionKind::Callers
    ||| k == ProjectionKind::References
    ||| k == ProjectionKind::Implementations
    ||| k == ProjectionKind::Subclasses
    ||| k == ProjectionKind::RepositorySearch
}

impl ProjectionKind {
    /// Canonical keyword used in rendering and canonical keys.
    pub fn keyword(self) -> (r: &'static str)
        ensures
            r@ == kind_keyword(self),
    {
        match self {
            ProjectionKind::FileContent => "file",
            ProjectionKind::Definition => "definition",
            ProjectionKind::Signature => "signature",
            ProjectionKind::References => "references",
            ProjectionKind::Callers => "callers",
            ProjectionKind::Implementations => "implementations",
            ProjectionKind::Imports => "imports",
            ProjectionKind::Subclasses => "subclasses",
            ProjectionKind::RepositorySearch => "repository_search",
            ProjectionKind::ConfigValue => "config_value",
            ProjectionKind::ToolVersion => "tool_version",
        }
    }

    /// Whether queries of this kind can assert absence/completeness claims
    /// and therefore bind to a universe + coverage certificate: callers,
    /// references, implementations, subclasses and repository searches.
    pub fn is_completeness_sensitive(self) -> (r: bool)
        ensures
            r == completeness_sensitive(self),
    {
        matches!(
            self,
            ProjectionKind::Callers | ProjectionKind::References | ProjectionKind::Implementations
                | ProjectionKind::Subclasses | ProjectionKind::RepositorySearch
        )
    }
}

/// The subject a projection queries, in canonical form.
#[derive(Debug, PartialEq, Eq, Hash)]
pub enum Subject {
    /// A tracked file path.
    File(String),
    /// A canonical program symbol identifier.
    Symbol(String),
    /// A module identifier.
    Module(String),
    /// A search pattern.
    Text(String),
    /// A configuration key.
    ConfigKey(String),
    /// A tool or runtime name.
    Tool(String),
}

/// What a [`Subject`] records: its variant and its text.
pub enum SubjectModel {
    /// A tracked file path.
    File(Seq<char>),
    /// A canonical program symbol identifier.
    Symbol(Seq<char>),
    /// A module identifier.
    Module(Seq<char>),
    /// A search pattern.
    Text(Seq<char>),
    /// A configuration key.
    ConfigKey(Seq<char>),
    /// A tool or runtime name.
    Tool(Seq<char>),
}

/// The text payload of a subject.
pub open spec fn subject_text(s: SubjectModel) -> Seq<char> {
    match s {
        SubjectModel::File(t) => t,
        SubjectModel::Symbol(t) => t,
        SubjectModel::Module(t) => t,
        SubjectModel::Text(t) => t,
        SubjectModel::ConfigKey(t) => t,
        SubjectModel::Tool(t) => t,
    }
}

/// The canonical tag of a subject's variant.
pub open spec fn subject_tag(s: SubjectModel) -> Seq<char> {
    match s {
        SubjectModel::File(_) => "file"@,
        SubjectModel::Symbol(_) => "symbol"@,
        SubjectModel::Module(_) => "module"@,
        SubjectModel::Text(_) => "text"@,
        SubjectModel::ConfigKey(_) => "config_key"@,
        SubjectModel::Tool(_) => "tool"@,
    }
}

/// The display form of a subject: search patterns are quoted.
pub open spec fn subject_display(s: SubjectModel) -> Seq<char> {
    match s {
        SubjectModel::Text(t) => "\""@ + t + "\""@,
        _ => subject_text(s),
    }
}

impl View for Subject {
    type V = SubjectModel;

    open spec fn view(&self) -> SubjectModel {
        match self {
            Subject::File(s) => SubjectModel::File(s@),
            Subject::Symbol(s) => SubjectModel::Symbol(s@),
            Subject::Module(s) => SubjectModel::Module(s@),
            Subject::Text(s) => SubjectModel::Text(s@),
            Subject::ConfigKey(s) => SubjectModel::ConfigKey(s@),
            Subject::Tool(s) => SubjectModel::Tool(s@),
        }
    }
}

impl Clone for Subject {
    fn clone(&self) -> (r: Self)
        ensures
            r@ == self@,
    {
        match self {
            Subject::File(s) => Subject::File(s.clone()),
            Subject::Symbol(s) => Subject::Symbol(s.clone()),
            Subject::Module(s) => Subject::Module(s.clone()),
            Subject::Text(s) => Subject::Text(s.clone()),
            Subject::ConfigKey(s) => Subject::ConfigKey(s.clone()),
            Subject::Tool(s) => Subject::Tool(s.clone()),
        }
    }
}

impl Subject {
    /// The canonical text of the subject (path, symbol, module, pattern,
    /// key or tool name).
    pub fn canonical(&self) -> (r: &str)
        ensures
            r@ == subject_text(self@),
    {
        match self {
            Subject::File(s) => s.as_str(),
            Subject::Symbol(s) => s.as_str(),
            Subject::Module(s) => s.as_str(),
            Subject::Text(s) => s.as_str(),
            Subject::ConfigKey(s) => s.as_str(),
            Subject::Tool(s) => s.as_str(),
        }
    }

    /// The canonical tag of the subject's variant.
    pub fn tag(&self) -> (r: &'static str)
        ensures
            r@ == subject_tag(self@),
    {
        match self {
            Subject::File(_) => "file",
            Subject::Symbol(_) => "symbol",
            Subject::Module(_) => "module",
            Subject::Text(_) => "text",
            Subject::ConfigKey(_) => "config_key",
            Subject::Tool(_) => "tool",
        }
    }

    /// Rejects a blank subject.
    fn validate(&self) -> (r: Result<(), DomainError>)
        ensures
            r is Ok <==> !blank(subject_text(self@)),
            r is Err ==> r == Err::<(), DomainError>(DomainError::EmptySubject),
    {
        if is_blank(self.canonical()) {
            Err(DomainError::EmptySubject)
        } else {
            Ok(())
        }
    }

    /// The display form: the subject text, with search patterns quoted.
    pub fn to_string(&self) -> (r: String)
        ensures
            r@ == subject_display(self@),
    {
        match self {
            Subject::Text(s) => {
                let mut out = owned("\"");
                push_str(&mut out, s.as_str());
                push_str(&mut out, "\"");
                out
            },
            _ => owned(self.canonical()),
        }
    }
}

/// The scope a projection is evaluated over.
#[derive(Debug, Clone, Copy, PartialEq, Eq, Structural, Hash)]
pub enum Scope {
    /// A single file.
    File,
    /// A single module.
    Module,
    /// A package (project-level unit).
    Package,
    /// The whole repository. Used by absence claims; binds the universe.
    Repository,
}

/// The name of each scope, as it renders.
pub open spec fn scope_name(s: Scope) -> Seq<char> {
    match s {
        Scope::File => "File"@,
        Scope::Module => "Module"@,
        Scope::Package => "Package"@,
        Scope::Repository => "Repository"@,
    }
}

impl Scope {
    /// The name of the scope.
    pub fn name(self) -> (r: &'static str)
        ensures
            r@ == scope_name(self),
    {
        match self {
            Scope::File => "File",
            Scope::Module => "Module",
            Scope::Package => "Package",
            Scope::Repository => "Repository",
        }
    }
}

/// What a [`Projection`] records.
pub struct ProjectionModel {
    /// The projection kind.
    pub kind: ProjectionKind,
    /// The queried subject.
    pub subject: SubjectModel,
    /// The queried property.
    pub property: Property,
    /// The evaluation scope.
    pub scope: Scope,
}

/// A well-formed projection: non-blank subject, property consistent with
/// kind.
pub open spec fn projection_wf(p: ProjectionModel) -> bool {
    &&& !blank(subject_text(p.subject))
    &&& property_kind(p.property) == p.kind
}

/// The rendering `keyword(subject, scope=Scope)`.
pub open spec fn projection_display(p: ProjectionModel) -> Seq<char> {
    kind_keyword(p.kind) + "("@ + subject_display(p.subject) + ", scope="@ + scope_name(p.scope)
        + ")"@
}

/// The canonical bytes a projection's identity is computed over: the
/// domain tag, then the kind keyword, the subject tag, the subject text and
/// the scope name, each length-prefixed.
pub open spec fn projection_encoding(p: ProjectionModel) -> Seq<u8> {
    framed(utf8("trellis.projection.v1"@)) + framed(utf8(kind_keyword(p.kind))) + framed(
        utf8(subject_tag(p.subject)),
    ) + framed(utf8(subject_text(p.subject))) + framed(utf8(scope_name(p.scope)))
}

/// A dependency projection: kind + subject + property + scope.
///
/// `property` is kept consistent with `kind` by construction.
#[derive(Debug, PartialEq, Eq, Hash)]
pub struct Projection {
    kind: ProjectionKind,
    subject: Subject,
    property: Property,
    scope: Scope,
}

impl View for Projection {
    type V = ProjectionModel;

    closed spec fn view(&self) -> ProjectionModel {
        ProjectionModel {
            kind: self.kind,
            subject: self.subject@,
            property: self.property,
            scope: self.scope,
        }
    }
}

impl Clone for Projection {
    fn clone(&self) -> (r: Self)
        ensures
            r@ == self@,
    {
        proof {
            use_type_invariant(self);
        }
        Projection {
            kind: self.kind,
            subject: self.subject.clone(),
            property: self.property,
            scope: self.scope,
        }
    }
}

/// The model of the projection a named constructor builds.
pub open spec fn simple_model(kind: ProjectionKind, subject: SubjectModel, scope: Scope) -> ProjectionModel {
    ProjectionModel { kind, subject, property: kind_property(kind), scope }
}

/// The result a named constructor owes: `Ok` with the given model exactly
/// when the subject text is not blank, `EmptySubject` otherwise.
pub open spec fn constructed(
    r: Result<Projection, DomainError>,
    kind: ProjectionKind,
    subject: SubjectModel,
    scope: Scope,
) -> bool {
    match r {
        Ok(p) => !blank(subject_text(subject)) && p@ == simple_model(kind, subject, scope),
        Err(e) => blank(subject_text(subject)) && e == DomainError::EmptySubject,
    }
}

impl Projection {
    #[verifier::type_invariant]
    spec fn well_formed(self) -> bool {
        projection_wf(self@)
    }

    /// General constructor.
    ///
    /// # Errors
    /// [`DomainError::EmptySubject`] if the subject is blank; otherwise
    /// [`DomainError::InconsistentProperty`] if the property belongs to
    /// another kind.
    pub fn new(kind: ProjectionKind, subject: Subject, property: Property, scope: Scope) -> (r:
        Result<Self, DomainError>)
        ensures
            match r {
                Ok(p) => projection_wf(p@) && p@ == (ProjectionModel {
                    kind,
                    subject: subject@,
                    property,
                    scope,
                }),
                Err(e) => if blank(subject_text(subject@)) {
                    e == DomainError::EmptySubject
                } else {
                    &&& property_kind(property) != kind
                    &&& e matches DomainError::InconsistentProperty { kind: k, property: q }
                    &&& k@ == kind_keyword(kind)
                    &&& q@ == kind_keyword(property_kind(property))
                },
            },
    {
        if let Err(e) = subject.validate() {
            return Err(e);
        }
        if property.kind() != kind {
            return Err(
                DomainError::InconsistentProperty {
                    kind: kind.keyword(),
                    property: property.kind().keyword(),
                },
            );
        }
        Ok(Projection { kind, subject, property, scope })
    }

    fn simple(kind: ProjectionKind, subject: Subject, scope: Scope) -> (r: Result<Self, DomainError>)
        ensures
            constructed(r, kind, subject@, scope),
    {
        if let Err(e) = subject.validate() {
            return Err(e);
        }
        let property = match Property::for_kind(kind) {
            Some(p) => p,
            None => Property::Content,
        };
        Ok(Projection { kind, subject, property, scope })
    }

    /// `file(path)`
    pub fn file(path: &str) -> (r: Result<Self, DomainError>)
        ensures
            constructed(r, ProjectionKind::FileContent, SubjectModel::File(path@), Scope::File),
    {
        Self::simple(ProjectionKind::FileContent, Subject::File(owned(path)), Scope::File)
    }

    /// `definition(symbol)`
    pub fn definition(symbol: &str) -> (r: Result<Self, DomainError>)
        ensures
            constructed(
                r,
                ProjectionKind::Definition,
                SubjectModel::Symbol(symbol@),
                Scope::Repository,
            ),
    {
        Self::simple(ProjectionKind::Definition, Subject::Symbol(owned(symbol)), Scope::Repository)
    }

    /// `signature(symbol)`
    pub fn signature(symbol: &str) -> (r: Result<Self, DomainError>)
        ensures
            constructed(
                r,
                ProjectionKind::Signature,
                SubjectModel::Symbol(symbol@),
                Scope::Repository,
            ),
    {
        Self::simple(ProjectionKind::Signature, Subject::Symbol(owned(symbol)), Scope::Repository)
    }

    /// `references(symbol, scope)`
    pub fn references(symbol: &str, scope: Scope) -> (r: Result<Self, DomainError>)
        ensures
            constructed(r, ProjectionKind::References, SubjectModel::Symbol(symbol@), scope),
    {
        Self::simple(ProjectionKind::References, Subject::Symbol(owned(symbol)), scope)
    }

    /// `callers(symbol, scope)`
    pub fn callers(symbol: &str, scope: Scope) -> (r: Result<Self, DomainError>)
        ensures
            constructed(r, ProjectionKind::Callers, SubjectModel::Symbol(symbol@), scope),
    {
        Self::simple(ProjectionKind::Callers, Subject::Symbol(owned(symbol)), scope)
    }

    /// `implementations(symbol, scope)`
    pub fn implementations(symbol: &str, scope: Scope) -> (r: Result<Self, DomainError>)
        ensures
            constructed(r, ProjectionKind::Implementations, SubjectModel::Symbol(symbol@), scope),
    {
        Self::simple(ProjectionKind::Implementations, Subject::Symbol(owned(symbol)), scope)
    }

    /// `imports(module, scope)`
    pub fn imports(module: &str, scope: Scope) -> (r: Result<Self, DomainError>)
        ensures
            constructed(r, ProjectionKind::Imports, SubjectModel::Module(module@), scope),
    {
        Self::simple(ProjectionKind::Imports, Subject::Module(owned(module)), scope)
    }

    /// `subclasses(symbol, scope)`
    pub fn subclasses(symbol: &str, scope: Scope) -> (r: Result<Self, DomainError>)
        ensures
            constructed(r, ProjectionKind::Subclasses, SubjectModel::Symbol(symbol@), scope),
    {
        Self::simple(ProjectionKind::Subclasses, Subject::Symbol(owned(symbol)), scope)
    }

    /// `repository_search(pattern, scope)`
    pub fn repository_search(pattern: &str, scope: Scope) -> (r: Result<Self, DomainError>)
        ensures
            constructed(r, ProjectionKind::RepositorySearch, SubjectModel::Text(pattern@), scope),
    {
        Self::simple(ProjectionKind::RepositorySearch, Subject::Text(owned(pattern)), scope)
    }

    /// `config_value(key)`
    pub fn config_value(key: &str) -> (r: Result<Self, DomainError>)
        ensures
            constructed(
                r,
                ProjectionKind::ConfigValue,
                SubjectModel::ConfigKey(key@),
                Scope::Repository,
            ),
    {
        Self::simple(ProjectionKind::ConfigValue, Subject::ConfigKey(owned(key)), Scope::Repository)
    }

    /// `tool_version(tool)`
    pub fn tool_version(tool: &str) -> (r: Result<Self, DomainError>)
        ensures
            constructed(r, ProjectionKind::ToolVersion, SubjectModel::Tool(tool@), Scope::Repository),
    {
        Self::simple(ProjectionKind::ToolVersion, Subject::Tool(owned(tool)), Scope::Repository)
    }

    /// The projection kind.
    pub fn kind(&self) -> (r: ProjectionKind)
        ensures
            r == self@.kind,
    {
        self.kind
    }

    /// The queried subject.
    pub fn subject(&self) -> (r: &Subject)
        ensures
            r@ == self@.subject,
            !blank(subject_text(r@)),
    {
        proof {
            use_type_invariant(self);
        }
        &self.subject
    }

    /// The queried property (always consistent with [`Self::kind`]).
    pub fn property(&self) -> (r: Property)
        ensures
            r == self@.property,
            property_kind(r) == self@.kind,
    {
        proof {
            use_type_invariant(self);
        }
        self.property
    }

    /// The evaluation scope.
    pub fn scope(&self) -> (r: Scope)
        ensures
            r == self@.scope,
    {
        self.scope
    }

    /// Construction-time invariant check. Succeeds for every value, since
    /// every constructor enforces it.
    pub fn validate(&self) -> (r: Result<(), DomainError>)
        ensures
            r is Ok,
    {
        proof {
            use_type_invariant(self);
        }
        if let Err(e) = self.subject.validate() {
            return Err(e);
        }
        if self.property.kind() != self.kind {
            return Err(
                DomainError::InconsistentProperty {
                    kind: self.kind.keyword(),
                    property: self.property.kind().keyword(),
                },
            );
        }
        Ok(())
    }

    /// Render as `keyword(subject, scope=Scope)`.
    pub fn to_string(&self) -> (r: String)
        ensures
            r@ == projection_display(self@),
    {
        let mut out = owned(self.kind.keyword());
        push_str(&mut out, "(");
        let subject = self.subject.to_string();
        push_str(&mut out, subject.as_str());
        push_str(&mut out, ", scope=");
        push_str(&mut out, self.scope.name());
        push_str(&mut out, ")");
        out
    }

    /// The canonical bytes this projection's identity is computed over.
    pub fn canonical_bytes(&self) -> (r: Vec<u8>)
        ensures
            r@ == projection_encoding(self@),
    {
        let mut buf: Vec<u8> = Vec::new();
        write_str(&mut buf, "trellis.projection.v1");
        write_str(&mut buf, self.kind.keyword());
        write_str(&mut buf, self.subject.tag());
        write_str(&mut buf, self.subject.canonical());
        write_str(&mut buf, self.scope.name());
        proof {
            assert(buf@ =~= projection_encoding(self@));
        }
        buf
    }

    /// Content identity of this projection: BLAKE3 over its canonical
    /// bytes, so equal projections share one identity on every machine.
    pub fn id(&self) -> (r: ProjectionId)
        ensures
            r.0.algo == HashAlgo::Blake3,
            r.0.digest@ == blake3_digest(projection_encoding(self@)),
    {
        let bytes = self.canonical_bytes();
        ProjectionId::from_hash(ContentHash::compute(HashAlgo::Blake3, bytes.as_slice()))
    }
}

/// What a [`ProjectionObservation`] records.
pub struct ObservationModel {
    /// Identity of the observation.
    pub id: ContentHash,
    /// The observed projection.
    pub projection: ContentHash,
    /// The snapshot the value was observed at.
    pub snapshot: ContentHash,
    /// Digest of the canonical projection value.
    pub value_digest: ContentHash,
    /// CAS blob holding the canonical value, if materialized.
    pub canonical_value: Option<BlobId>,
}

/// One observation of a projection's value at one snapshot.
#[derive(Debug, Clone, Copy, PartialEq, Eq)]
pub struct ProjectionObservation {
    id: ProjectionObservationId,
    projection: ProjectionId,
    snapshot: SnapshotId,
    value_digest: ContentHash,
    canonical_value: Option<BlobId>,
}

impl View for ProjectionObservation {
    type V = ObservationModel;

    closed spec fn view(&self) -> ObservationModel {
        ObservationModel {
            id: self.id.0,
            projection: self.projection.0,
            snapshot: self.snapshot.0,
            value_digest: self.value_digest,
            canonical_value: self.canonical_value,
        }
    }
}

impl ProjectionObservation {
    /// Construct an observation. `canonical_value` references the CAS blob
    /// holding the canonical serialized value, if the value was
    /// materialized.
    pub fn new(
        id: ProjectionObservationId,
        projection: ProjectionId,
        snapshot: SnapshotId,
        value_digest: ContentHash,
        canonical_value: Option<BlobId>,
    ) -> (r: Self)
        ensures
            r@ == (ObservationModel {
                id: id.0,
                projection: projection.0,
                snapshot: snapshot.0,
                value_digest,
                canonical_value,
            }),
    {
        ProjectionObservation { id, projection, snapshot, value_digest, canonical_value }
    }

    /// Identity of this observation.
    pub fn id(&self) -> (r: ProjectionObservationId)
        ensures
            r.0 == self@.id,
    {
        self.id
    }

    /// The observed projection.
    pub fn projection(&self) -> (r: ProjectionId)
        ensures
            r.0 == self@.projection,
    {
        self.projection
    }

    /// The snapshot the value was observed at.
    pub fn snapshot(&self) -> (r: SnapshotId)
        ensures
            r.0 == self@.snapshot,
    {
        self.snapshot
    }

    /// Digest of the canonical projection value.
    pub fn value_digest(&self) -> (r: &ContentHash)
        ensures
            *r == self@.value_digest,
    {
        &self.value_digest
    }

    /// CAS blob holding the canonical value, if materialized.
    pub fn canonical_value(&self) -> (r: Option<BlobId>)
        ensures
            r == self@.canonical_value,
    {
        self.canonical_value
    }
}

} // verus!
