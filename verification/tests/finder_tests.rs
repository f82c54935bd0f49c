use query_refs::graph::{
    Argument, Condition, Directive, FragmentDefinition, FragmentSpread, InlineFragment,
    LinkedField, NameRef, OperationDefinition, Program, RawLocation, ReferenceFinder, ScalarField,
    Selection,
};
use query_refs::span::Span;

const TARGET: u64 = 1;
const OTHER: u64 = 2;
const FILE_A: u64 = 100;
const FILE_B: u64 = 101;

fn loc(file: u64, start: usize, end: usize) -> RawLocation {
    RawLocation { file, span: Span { start, end } }
}

fn spread(name: u64, location: RawLocation) -> Selection {
    Selection::FragmentSpread(FragmentSpread {
        fragment: NameRef { item: name, location },
        arguments: Vec::new(),
        directives: Vec::new(),
    })
}

fn operation(name: u64, selections: Vec<Selection>) -> OperationDefinition {
    OperationDefinition { name, directives: Vec::new(), selections }
}

fn fragment(name: u64, selections: Vec<Selection>) -> FragmentDefinition {
    FragmentDefinition { name, directives: Vec::new(), selections }
}

#[test]
fn finds_matching_spreads_in_traversal_order() {
    // Operations come before fragments; within a definition the
    // selection tree is walked depth-first, in order.
    let program = Program {
        operations: vec![operation(
            10,
            vec![
                spread(TARGET, loc(FILE_A, 0, 5)),
                Selection::LinkedField(LinkedField {
                    name: 20,
                    arguments: Vec::new(),
                    directives: Vec::new(),
                    selections: vec![
                        spread(OTHER, loc(FILE_A, 6, 9)),
                        spread(TARGET, loc(FILE_A, 10, 15)),
                    ],
                }),
            ],
        )],
        fragments: vec![fragment(11, vec![spread(TARGET, loc(FILE_B, 3, 8))])],
    };
    let refs = ReferenceFinder::get_references_to_fragment(&program, TARGET);
    assert_eq!(
        refs,
        vec![loc(FILE_A, 0, 5), loc(FILE_A, 10, 15), loc(FILE_B, 3, 8)]
    );
}

#[test]
fn unspread_fragment_yields_empty_sequence() {
    let program = Program {
        operations: vec![operation(10, vec![spread(OTHER, loc(FILE_A, 0, 4))])],
        fragments: vec![fragment(11, vec![spread(OTHER, loc(FILE_A, 5, 9))])],
    };
    let refs = ReferenceFinder::get_references_to_fragment(&program, TARGET);
    assert!(refs.is_empty());
}

#[test]
fn empty_program_yields_empty_sequence() {
    let program = Program { operations: Vec::new(), fragments: Vec::new() };
    let refs = ReferenceFinder::get_references_to_fragment(&program, TARGET);
    assert!(refs.is_empty());
}

#[test]
fn finds_spreads_nested_in_every_container() {
    let inner = Selection::Condition(Condition {
        passing_value: true,
        directives: Vec::new(),
        selections: vec![spread(TARGET, loc(FILE_A, 30, 40))],
    });
    let program = Program {
        operations: Vec::new(),
        fragments: vec![fragment(
            11,
            vec![Selection::InlineFragment(InlineFragment {
                type_condition: Some(50),
                directives: Vec::new(),
                selections: vec![Selection::LinkedField(LinkedField {
                    name: 20,
                    arguments: Vec::new(),
                    directives: Vec::new(),
                    selections: vec![inner],
                })],
            })],
        )],
    };
    let refs = ReferenceFinder::get_references_to_fragment(&program, TARGET);
    assert_eq!(refs, vec![loc(FILE_A, 30, 40)]);
}

#[test]
fn arguments_and_directives_do_not_affect_the_result() {
    // The same selection tree, once bare and once decorated with
    // arguments and directives everywhere: the result is identical.
    let bare = Program {
        operations: vec![operation(10, vec![spread(TARGET, loc(FILE_A, 1, 2))])],
        fragments: Vec::new(),
    };
    let decorated = Program {
        operations: vec![OperationDefinition {
            name: 10,
            directives: vec![Directive {
                name: 60,
                arguments: vec![Argument { name: 61, value: 62 }],
            }],
            selections: vec![
                Selection::FragmentSpread(FragmentSpread {
                    fragment: NameRef { item: TARGET, location: loc(FILE_A, 1, 2) },
                    arguments: vec![Argument { name: 63, value: 64 }],
                    directives: vec![Directive { name: 65, arguments: Vec::new() }],
                }),
                Selection::ScalarField(ScalarField {
                    name: 21,
                    arguments: vec![Argument { name: 66, value: 67 }],
                    directives: vec![Directive { name: 68, arguments: Vec::new() }],
                }),
            ],
        }],
        fragments: Vec::new(),
    };
    let bare_refs = ReferenceFinder::get_references_to_fragment(&bare, TARGET);
    let decorated_refs = ReferenceFinder::get_references_to_fragment(&decorated, TARGET);
    assert_eq!(bare_refs, decorated_refs);
    assert_eq!(bare_refs, vec![loc(FILE_A, 1, 2)]);
}

#[test]
fn multiple_spreads_of_same_fragment_reported_once_each() {
    // No deduplication beyond the graph's own nodes: two spread nodes
    // with the same location are reported twice.
    let program = Program {
        operations: Vec::new(),
        fragments: vec![fragment(
            11,
            vec![
                spread(TARGET, loc(FILE_A, 7, 9)),
                spread(TARGET, loc(FILE_A, 7, 9)),
            ],
        )],
    };
    let refs = ReferenceFinder::get_references_to_fragment(&program, TARGET);
    assert_eq!(refs, vec![loc(FILE_A, 7, 9), loc(FILE_A, 7, 9)]);
}
