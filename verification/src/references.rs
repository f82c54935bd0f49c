//! The reference lookup service: selects a program graph by project,
//! runs the finder, and re-anchors every collected location.

use vstd::prelude::*;

use std::collections::HashMap;

use crate::graph::{fragment_refs, FileKey, NameKey, Program, RawLocation, ReferenceFinder};
use crate::span::{
    reanchor_span, reanchored_range, span_in_bounds, EmbeddedLiteralAnchor, TextRange,
};

verus! {

broadcast use vstd::std_specs::hash::group_hash_axioms;

/// The construct that the caller resolved under the cursor.
#[derive(Clone, Copy, PartialEq, Eq, Structural, Debug)]
pub enum NodeKind {
    FragmentDefinition(NameKey),
    Other,
}

/// A resolved reference query: the project and the construct kind.
#[derive(Clone, Copy, PartialEq, Eq, Structural, Debug)]
pub struct NodeResolutionInfo {
    pub project_name: NameKey,
    pub kind: NodeKind,
}

/// The ways a reference lookup can fail. All are terminal for one
/// request: no partial results, no retry.
#[derive(Clone, Copy, PartialEq, Eq, Structural, Debug)]
pub enum LookupError {
    /// The construct under the cursor is not a fragment definition.
    UnsupportedQuery,
    /// The named project has no compiled program graph.
    ProjectNotFound(NameKey),
    /// A recorded location could not be mapped to an absolute range:
    /// its span is out of bounds, or its literal has no anchor.
    SpanMappingFailed,
}

/// An editor-addressable location: host file plus absolute range.
#[derive(Clone, Copy, PartialEq, Eq, Structural, Debug)]
pub struct EditorLocation {
    pub file: FileKey,
    pub range: TextRange,
}

/// The current compiled program graph of each project. Mutated only by
/// the compilation pipeline, which replaces a project's graph wholesale.
pub struct ProgramStore {
    programs: HashMap<NameKey, Program>,
}

impl View for ProgramStore {
    type V = Map<NameKey, Program>;

    closed spec fn view(&self) -> Map<NameKey, Program> {
        self.programs@
    }
}

impl ProgramStore {
    pub fn new() -> (r: Self)
        ensures
            r@ == Map::<NameKey, Program>::empty(),
    {
        ProgramStore { programs: HashMap::new() }
    }

    /// Installs the freshly compiled graph of one project.
    pub fn insert(&mut self, project: NameKey, program: Program)
        ensures
            final(self)@ == old(self)@.insert(project, program),
    {
        self.programs.insert(project, program);
    }

    pub fn get(&self, project: NameKey) -> (r: Option<&Program>)
        ensures
            match r {
                Some(program) => self@.contains_key(project) && *program == self@[project],
                None => !self@.contains_key(project),
            },
    {
        self.programs.get(&project)
    }
}

/// The embedded-literal anchor of each source file: the literal's
/// absolute starting position in its host file, and its raw text.
pub struct AnchorStore {
    anchors: HashMap<FileKey, EmbeddedLiteralAnchor>,
}

impl View for AnchorStore {
    type V = Map<FileKey, EmbeddedLiteralAnchor>;

    closed spec fn view(&self) -> Map<FileKey, EmbeddedLiteralAnchor> {
        self.anchors@
    }
}

impl AnchorStore {
    /// Every anchor held satisfies the machine limit of
    /// `EmbeddedLiteralAnchor::wf`.
    pub open spec fn wf(self) -> bool {
        forall|f: FileKey| self@.contains_key(f) ==> (#[trigger] self@[f]).wf()
    }

    pub fn new() -> (r: Self)
        ensures
            r@ == Map::<FileKey, EmbeddedLiteralAnchor>::empty(),
            r.wf(),
    {
        AnchorStore { anchors: HashMap::new() }
    }

    pub fn insert(&mut self, file: FileKey, anchor: EmbeddedLiteralAnchor)
        requires
            anchor.wf(),
        ensures
            final(self)@ == old(self)@.insert(file, anchor),
            old(self).wf() ==> final(self).wf(),
    {
        self.anchors.insert(file, anchor);
        proof {
            if old(self).wf() {
                assert forall|f: FileKey| self@.contains_key(f) implies (#[trigger] self@[f]).wf() by {
                    if f != file {
                        assert(old(self)@.contains_key(f));
                    }
                }
            }
        }
    }

    pub fn get(&self, file: FileKey) -> (r: Option<&EmbeddedLiteralAnchor>)
        ensures
            match r {
                Some(anchor) => self@.contains_key(file) && *anchor == self@[file],
                None => !self@.contains_key(file),
            },
    {
        self.anchors.get(&file)
    }
}

/// The editor location of one raw reference location, when its host
/// file has an anchor and its span lies within that anchor's text.
pub open spec fn transformed_location(
    anchors: Map<FileKey, EmbeddedLiteralAnchor>,
    location: RawLocation,
) -> Option<EditorLocation> {
    if anchors.contains_key(location.file) && span_in_bounds(
        anchors[location.file].text@,
        location.span,
    ) {
        Some(
            EditorLocation {
                file: location.file,
                range: reanchored_range(
                    anchors[location.file].position,
                    anchors[location.file].text@,
                    location.span,
                ),
            },
        )
    } else {
        None
    }
}

/// Whether every location in the sequence can be mapped.
pub open spec fn all_locations_mappable(
    anchors: Map<FileKey, EmbeddedLiteralAnchor>,
    locations: Seq<RawLocation>,
) -> bool {
    forall|i: int|
        0 <= i < locations.len() ==> transformed_location(anchors, #[trigger] locations[i])
            is Some
}

/// The editor locations of a sequence of mappable raw locations, in the
/// same order.
pub open spec fn mapped_locations(
    anchors: Map<FileKey, EmbeddedLiteralAnchor>,
    locations: Seq<RawLocation>,
) -> Seq<EditorLocation> {
    Seq::new(locations.len(), |i: int| transformed_location(anchors, locations[i])->Some_0)
}

/// What a reference lookup returns, for every query, program store and
/// anchor store: the response pipeline of the service in one place.
pub open spec fn expected_response(
    info: NodeResolutionInfo,
    programs: Map<NameKey, Program>,
    anchors: Map<FileKey, EmbeddedLiteralAnchor>,
) -> Result<Seq<EditorLocation>, LookupError> {
    match info.kind {
        NodeKind::Other => Err(LookupError::UnsupportedQuery),
        NodeKind::FragmentDefinition(name) => {
            if !programs.contains_key(info.project_name) {
                Err(LookupError::ProjectNotFound(info.project_name))
            } else {
                let refs = fragment_refs(programs[info.project_name], name);
                if all_locations_mappable(anchors, refs) {
                    Ok(mapped_locations(anchors, refs))
                } else {
                    Err(LookupError::SpanMappingFailed)
                }
            }
        },
    }
}

/// Maps one raw reference location to an editor location against the
/// anchor of its host file. Fails exactly when the file has no anchor
/// or the span lies outside the literal's text.
pub fn transform_reference_locations_to_lsp_locations(
    anchors: &AnchorStore,
    location: RawLocation,
) -> (r: Result<EditorLocation, LookupError>)
    requires
        anchors.wf(),
    ensures
        match r {
            Ok(loc) => transformed_location(anchors@, location) == Some(loc),
            Err(e) => e == LookupError::SpanMappingFailed && transformed_location(
                anchors@,
                location,
            ) is None,
        },
{
    match anchors.get(location.file) {
        None => Err(LookupError::SpanMappingFailed),
        Some(anchor) => {
            proof {
                assert(anchors@[location.file].wf());
            }
            match reanchor_span(anchor, location.span) {
                None => Err(LookupError::SpanMappingFailed),
                Some(range) => Ok(EditorLocation { file: location.file, range }),
            }
        },
    }
}

/// Finds every reference to the fragment definition named in the query:
/// selects the project's program graph, collects every spread of the
/// fragment in traversal order, and re-anchors each location. Fails
/// with `UnsupportedQuery` on any non-fragment query, `ProjectNotFound`
/// when the project has no graph, and `SpanMappingFailed` when any one
/// collected location cannot be mapped (no partial results).
pub fn get_references_response(
    node_resolution_info: NodeResolutionInfo,
    source_programs: &ProgramStore,
    anchors: &AnchorStore,
) -> (r: Result<Vec<EditorLocation>, LookupError>)
    requires
        anchors.wf(),
    ensures
        match r {
            Ok(locations) => expected_response(node_resolution_info, source_programs@, anchors@)
                == Ok::<Seq<EditorLocation>, LookupError>(locations@),
            Err(e) => expected_response(node_resolution_info, source_programs@, anchors@)
                == Err::<Seq<EditorLocation>, LookupError>(e),
        },
{
    match node_resolution_info.kind {
        NodeKind::FragmentDefinition(fragment_name) => {
            let project_name = node_resolution_info.project_name;
            match source_programs.get(project_name) {
                Some(source_program) => {
                    let references = ReferenceFinder::get_references_to_fragment(
                        source_program,
                        fragment_name,
                    );
                    let ghost refs = fragment_refs(
                        source_programs@[project_name],
                        fragment_name,
                    );
                    let mut out: Vec<EditorLocation> = Vec::new();
                    let mut i: usize = 0;
                    while i < references.len()
                        invariant
                            anchors.wf(),
                            references@ == refs,
                            i <= refs.len(),
                            out@.len() == i,
                            node_resolution_info.kind == NodeKind::FragmentDefinition(
                                fragment_name,
                            ),
                            project_name == node_resolution_info.project_name,
                            source_programs@.contains_key(project_name),
                            refs == fragment_refs(
                                source_programs@[project_name],
                                fragment_name,
                            ),
                            forall|j: int|
                                0 <= j < i ==> transformed_location(anchors@, #[trigger] refs[j])
                                    == Some(out@[j]),
                        decreases refs.len() - i,
                    {
                        match transform_reference_locations_to_lsp_locations(
                            anchors,
                            references[i],
                        ) {
                            Ok(loc) => {
                                out.push(loc);
                            },
                            Err(e) => {
                                proof {
                                    assert(transformed_location(anchors@, refs[i as int])
                                        is None);
                                    assert(!all_locations_mappable(anchors@, refs));
                                }
                                return Err(e);
                            },
                        }
                        i = i + 1;
                    }
                    proof {
                        assert(all_locations_mappable(anchors@, refs));
                        assert(out@ =~= mapped_locations(anchors@, refs));
                    }
                    Ok(out)
                },
                None => Err(LookupError::ProjectNotFound(project_name)),
            }
        },
        NodeKind::Other => Err(LookupError::UnsupportedQuery),
    }
}

} // verus!
