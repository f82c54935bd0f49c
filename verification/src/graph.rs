//! The compiled program graph and the reference finder that walks it.
//!
//! Names and file identifiers are interned keys. A program holds the
//! operation and fragment definitions of one project; each definition
//! owns a selection tree whose leaves include fragment spreads. The
//! finder collects the location of every spread of one fragment, in
//! traversal order: definitions first (operations, then fragments, each
//! in order), then nested selections depth-first. Argument and directive
//! subtrees are never entered.

use vstd::prelude::*;

use crate::span::Span;

verus! {

/// An interned name (fragment, field, project, ...).
pub type NameKey = u64;

/// An interned source-file identifier.
pub type FileKey = u64;

/// A reference into the compiled representation: source file plus a
/// byte-offset span, possibly relative to an embedded literal of that
/// file.
#[derive(Clone, Copy, PartialEq, Eq, Structural, Debug)]
pub struct RawLocation {
    pub file: FileKey,
    pub span: Span,
}

/// A use of a name together with the location of the use itself.
#[derive(Clone, Copy, PartialEq, Eq, Structural, Debug)]
pub struct NameRef {
    pub item: NameKey,
    pub location: RawLocation,
}

/// An argument of a field or directive; its value is an interned
/// constant and is never traversed by the finder.
#[derive(Debug)]
pub struct Argument {
    pub name: NameKey,
    pub value: NameKey,
}

/// A directive attached to a selection; never traversed by the finder.
#[derive(Debug)]
pub struct Directive {
    pub name: NameKey,
    pub arguments: Vec<Argument>,
}

/// A use-site of a named fragment.
#[derive(Debug)]
pub struct FragmentSpread {
    pub fragment: NameRef,
    pub arguments: Vec<Argument>,
    pub directives: Vec<Directive>,
}

/// An anonymous selection set, optionally constrained to a type.
#[derive(Debug)]
pub struct InlineFragment {
    pub type_condition: Option<NameKey>,
    pub directives: Vec<Directive>,
    pub selections: Vec<Selection>,
}

/// A field that selects further fields.
#[derive(Debug)]
pub struct LinkedField {
    pub name: NameKey,
    pub arguments: Vec<Argument>,
    pub directives: Vec<Directive>,
    pub selections: Vec<Selection>,
}

/// A leaf field.
#[derive(Debug)]
pub struct ScalarField {
    pub name: NameKey,
    pub arguments: Vec<Argument>,
    pub directives: Vec<Directive>,
}

/// A selection set guarded by a boolean variable condition.
#[derive(Debug)]
pub struct Condition {
    pub passing_value: bool,
    pub directives: Vec<Directive>,
    pub selections: Vec<Selection>,
}

/// One node of a definition's selection tree.
#[derive(Debug)]
pub enum Selection {
    FragmentSpread(FragmentSpread),
    InlineFragment(InlineFragment),
    LinkedField(LinkedField),
    ScalarField(ScalarField),
    Condition(Condition),
}

/// A named operation definition.
#[derive(Debug)]
pub struct OperationDefinition {
    pub name: NameKey,
    pub directives: Vec<Directive>,
    pub selections: Vec<Selection>,
}

/// A named fragment definition.
#[derive(Debug)]
pub struct FragmentDefinition {
    pub name: NameKey,
    pub directives: Vec<Directive>,
    pub selections: Vec<Selection>,
}

/// The compiled program graph of one project: all of its operation and
/// fragment definitions, in definition order.
#[derive(Debug)]
pub struct Program {
    pub operations: Vec<OperationDefinition>,
    pub fragments: Vec<FragmentDefinition>,
}

/// Locations of the spreads of `name` within one selection node, in
/// traversal order. Argument and directive subtrees contribute nothing.
pub open spec fn spread_refs_in_selection(s: Selection, name: NameKey) -> Seq<RawLocation>
    decreases s,
{
    match s {
        Selection::FragmentSpread(sp) => if sp.fragment.item == name {
            seq![sp.fragment.location]
        } else {
            Seq::empty()
        },
        Selection::InlineFragment(f) => spread_refs_in_selections(f.selections@, name),
        Selection::LinkedField(f) => spread_refs_in_selections(f.selections@, name),
        Selection::ScalarField(_) => Seq::empty(),
        Selection::Condition(c) => spread_refs_in_selections(c.selections@, name),
    }
}

/// Locations of the spreads of `name` within a selection list, in order.
pub open spec fn spread_refs_in_selections(ss: Seq<Selection>, name: NameKey) -> Seq<RawLocation>
    decreases ss,
{
    if ss.len() == 0 {
        Seq::empty()
    } else {
        spread_refs_in_selection(ss[0], name) + spread_refs_in_selections(ss.drop_first(), name)
    }
}

/// Locations of the spreads of `name` within a list of operations.
pub open spec fn spread_refs_in_operations(ops: Seq<OperationDefinition>, name: NameKey) -> Seq<
    RawLocation,
>
    decreases ops,
{
    if ops.len() == 0 {
        Seq::empty()
    } else {
        spread_refs_in_selections(ops[0].selections@, name) + spread_refs_in_operations(
            ops.drop_first(),
            name,
        )
    }
}

/// Locations of the spreads of `name` within a list of fragments.
pub open spec fn spread_refs_in_fragments(frags: Seq<FragmentDefinition>, name: NameKey) -> Seq<
    RawLocation,
>
    decreases frags,
{
    if frags.len() == 0 {
        Seq::empty()
    } else {
        spread_refs_in_selections(frags[0].selections@, name) + spread_refs_in_fragments(
            frags.drop_first(),
            name,
        )
    }
}

/// Locations of every spread of `name` in the program, in traversal
/// order: operations first, then fragments.
pub open spec fn fragment_refs(program: Program, name: NameKey) -> Seq<RawLocation> {
    spread_refs_in_operations(program.operations@, name) + spread_refs_in_fragments(
        program.fragments@,
        name,
    )
}

/// Collects the locations of every spread of one fragment in a program.
pub struct ReferenceFinder {
    pub references: Vec<RawLocation>,
    pub name: NameKey,
}

impl ReferenceFinder {
    /// Every location at which the fragment `name` is spread in
    /// `program`, in traversal order.
    pub fn get_references_to_fragment(program: &Program, name: NameKey) -> (r: Vec<RawLocation>)
        ensures
            r@ == fragment_refs(*program, name),
    {
        let mut reference_finder = ReferenceFinder { references: Vec::new(), name };
        reference_finder.visit_program(program);
        reference_finder.references
    }

    fn visit_program(&mut self, program: &Program)
        ensures
            final(self).name == old(self).name,
            final(self).references@ == old(self).references@ + fragment_refs(
                *program,
                old(self).name,
            ),
    {
        let mut i: usize = 0;
        while i < program.operations.len()
            invariant
                i <= program.operations@.len(),
                self.name == old(self).name,
                self.references@ == old(self).references@ + spread_refs_in_operations(
                    program.operations@.take(i as int),
                    self.name,
                ),
            decreases program.operations@.len() - i,
        {
            proof {
                lemma_refs_operations_snoc(program.operations@, i as int, self.name);
            }
            self.visit_selections(&program.operations[i].selections);
            i = i + 1;
        }
        proof {
            assert(program.operations@.take(program.operations@.len() as int)
                =~= program.operations@);
        }
        let ghost mid = self.references@;
        let mut j: usize = 0;
        while j < program.fragments.len()
            invariant
                j <= program.fragments@.len(),
                self.name == old(self).name,
                mid == old(self).references@ + spread_refs_in_operations(
                    program.operations@,
                    self.name,
                ),
                self.references@ == mid + spread_refs_in_fragments(
                    program.fragments@.take(j as int),
                    self.name,
                ),
            decreases program.fragments@.len() - j,
        {
            proof {
                lemma_refs_fragments_snoc(program.fragments@, j as int, self.name);
            }
            self.visit_selections(&program.fragments[j].selections);
            j = j + 1;
        }
        proof {
            assert(program.fragments@.take(program.fragments@.len() as int)
                =~= program.fragments@);
        }
    }

    fn visit_selections(&mut self, selections: &Vec<Selection>)
        ensures
            final(self).name == old(self).name,
            final(self).references@ == old(self).references@ + spread_refs_in_selections(
                selections@,
                old(self).name,
            ),
        decreases selections,
    {
        let mut i: usize = 0;
        while i < selections.len()
            invariant
                i <= selections@.len(),
                self.name == old(self).name,
                self.references@ == old(self).references@ + spread_refs_in_selections(
                    selections@.take(i as int),
                    self.name,
                ),
            decreases selections@.len() - i,
        {
            proof {
                lemma_refs_selections_snoc(selections@, i as int, self.name);
            }
            self.visit_selection(&selections[i]);
            i = i + 1;
        }
        proof {
            assert(selections@.take(selections@.len() as int) =~= selections@);
        }
    }

    fn visit_selection(&mut self, selection: &Selection)
        ensures
            final(self).name == old(self).name,
            final(self).references@ == old(self).references@ + spread_refs_in_selection(
                *selection,
                old(self).name,
            ),
        decreases selection,
    {
        match selection {
            Selection::FragmentSpread(spread) => self.visit_fragment_spread(spread),
            Selection::InlineFragment(fragment) => self.visit_selections(&fragment.selections),
            Selection::LinkedField(field) => self.visit_selections(&field.selections),
            Selection::ScalarField(_) => (),
            Selection::Condition(condition) => self.visit_selections(&condition.selections),
        }
    }

    fn visit_fragment_spread(&mut self, spread: &FragmentSpread)
        ensures
            final(self).name == old(self).name,
            final(self).references@ == old(self).references@ + (if spread.fragment.item == old(
                self,
            ).name {
                seq![spread.fragment.location]
            } else {
                Seq::<RawLocation>::empty()
            }),
    {
        if spread.fragment.item == self.name {
            self.references.push(spread.fragment.location);
        } else {
            proof {
                assert(self.references@ =~= old(self).references@ + Seq::<RawLocation>::empty());
            }
        }
    }
}

proof fn lemma_refs_selections_snoc(ss: Seq<Selection>, i: int, name: NameKey)
    requires
        0 <= i < ss.len(),
    ensures
        spread_refs_in_selections(ss.take(i + 1), name) == spread_refs_in_selections(
            ss.take(i),
            name,
        ) + spread_refs_in_selection(ss[i], name),
    decreases i,
{
    if i == 0 {
        assert(ss.take(1).drop_first() =~= Seq::<Selection>::empty());
        assert(ss.take(1)[0] == ss[0]);
        assert(ss.take(0) =~= Seq::<Selection>::empty());
        assert(spread_refs_in_selection(ss[0], name) + Seq::<RawLocation>::empty()
            =~= spread_refs_in_selection(ss[0], name));
        assert(Seq::<RawLocation>::empty() + spread_refs_in_selection(ss[0], name)
            =~= spread_refs_in_selection(ss[0], name));
    } else {
        lemma_refs_selections_snoc(ss.drop_first(), i - 1, name);
        assert(ss.take(i + 1).drop_first() =~= ss.drop_first().take(i));
        assert(ss.take(i).drop_first() =~= ss.drop_first().take(i - 1));
        assert(ss.take(i + 1)[0] == ss[0]);
        assert(ss.take(i)[0] == ss[0]);
        assert(ss.drop_first()[i - 1] == ss[i]);
        assert(spread_refs_in_selection(ss[0], name) + (spread_refs_in_selections(
            ss.drop_first().take(i - 1),
            name,
        ) + spread_refs_in_selection(ss[i], name)) =~= (spread_refs_in_selection(ss[0], name)
            + spread_refs_in_selections(ss.drop_first().take(i - 1), name))
            + spread_refs_in_selection(ss[i], name));
    }
}

proof fn lemma_refs_operations_snoc(ops: Seq<OperationDefinition>, i: int, name: NameKey)
    requires
        0 <= i < ops.len(),
    ensures
        spread_refs_in_operations(ops.take(i + 1), name) == spread_refs_in_operations(
            ops.take(i),
            name,
        ) + spread_refs_in_selections(ops[i].selections@, name),
    decreases i,
{
    if i == 0 {
        assert(ops.take(1).drop_first() =~= Seq::<OperationDefinition>::empty());
        assert(ops.take(1)[0] == ops[0]);
        assert(ops.take(0) =~= Seq::<OperationDefinition>::empty());
        assert(spread_refs_in_selections(ops[0].selections@, name) + Seq::<RawLocation>::empty()
            =~= spread_refs_in_selections(ops[0].selections@, name));
        assert(Seq::<RawLocation>::empty() + spread_refs_in_selections(ops[0].selections@, name)
            =~= spread_refs_in_selections(ops[0].selections@, name));
    } else {
        lemma_refs_operations_snoc(ops.drop_first(), i - 1, name);
        assert(ops.take(i + 1).drop_first() =~= ops.drop_first().take(i));
        assert(ops.take(i).drop_first() =~= ops.drop_first().take(i - 1));
        assert(ops.take(i + 1)[0] == ops[0]);
        assert(ops.take(i)[0] == ops[0]);
        assert(ops.drop_first()[i - 1] == ops[i]);
        assert(spread_refs_in_selections(ops[0].selections@, name) + (spread_refs_in_operations(
            ops.drop_first().take(i - 1),
            name,
        ) + spread_refs_in_selections(ops[i].selections@, name)) =~= (spread_refs_in_selections(
            ops[0].selections@,
            name,
        ) + spread_refs_in_operations(ops.drop_first().take(i - 1), name))
            + spread_refs_in_selections(ops[i].selections@, name));
    }
}

proof fn lemma_refs_fragments_snoc(frags: Seq<FragmentDefinition>, i: int, name: NameKey)
    requires
        0 <= i < frags.len(),
    ensures
        spread_refs_in_fragments(frags.take(i + 1), name) == spread_refs_in_fragments(
            frags.take(i),
            name,
        ) + spread_refs_in_selections(frags[i].selections@, name),
    decreases i,
{
    if i == 0 {
        assert(frags.take(1).drop_first() =~= Seq::<FragmentDefinition>::empty());
        assert(frags.take(1)[0] == frags[0]);
        assert(frags.take(0) =~= Seq::<FragmentDefinition>::empty());
        assert(spread_refs_in_selections(frags[0].selections@, name) + Seq::<RawLocation>::empty()
            =~= spread_refs_in_selections(frags[0].selections@, name));
        assert(Seq::<RawLocation>::empty() + spread_refs_in_selections(frags[0].selections@, name)
            =~= spread_refs_in_selections(frags[0].selections@, name));
    } else {
        lemma_refs_fragments_snoc(frags.drop_first(), i - 1, name);
        assert(frags.take(i + 1).drop_first() =~= frags.drop_first().take(i));
        assert(frags.take(i).drop_first() =~= frags.drop_first().take(i - 1));
        assert(frags.take(i + 1)[0] == frags[0]);
        assert(frags.take(i)[0] == frags[0]);
        assert(frags.drop_first()[i - 1] == frags[i]);
        assert(spread_refs_in_selections(frags[0].selections@, name) + (spread_refs_in_fragments(
            frags.drop_first().take(i - 1),
            name,
        ) + spread_refs_in_selections(frags[i].selections@, name)) =~= (spread_refs_in_selections(
            frags[0].selections@,
            name,
        ) + spread_refs_in_fragments(frags.drop_first().take(i - 1), name))
            + spread_refs_in_selections(frags[i].selections@, name));
    }
}

/// Every spread reference in one selection node — target name and
/// location — in traversal order, whatever its target.
pub open spec fn spread_entries_in_selection(s: Selection) -> Seq<NameRef>
    decreases s,
{
    match s {
        Selection::FragmentSpread(sp) => seq![sp.fragment],
        Selection::InlineFragment(f) => spread_entries_in_selections(f.selections@),
        Selection::LinkedField(f) => spread_entries_in_selections(f.selections@),
        Selection::ScalarField(_) => Seq::empty(),
        Selection::Condition(c) => spread_entries_in_selections(c.selections@),
    }
}

/// Every spread reference in a selection list, in order.
pub open spec fn spread_entries_in_selections(ss: Seq<Selection>) -> Seq<NameRef>
    decreases ss,
{
    if ss.len() == 0 {
        Seq::empty()
    } else {
        spread_entries_in_selection(ss[0]) + spread_entries_in_selections(ss.drop_first())
    }
}

/// Every spread reference in a list of operations, in order.
pub open spec fn spread_entries_in_operations(ops: Seq<OperationDefinition>) -> Seq<NameRef>
    decreases ops,
{
    if ops.len() == 0 {
        Seq::empty()
    } else {
        spread_entries_in_selections(ops[0].selections@) + spread_entries_in_operations(
            ops.drop_first(),
        )
    }
}

/// Every spread reference in a list of fragments, in order.
pub open spec fn spread_entries_in_fragments(frags: Seq<FragmentDefinition>) -> Seq<NameRef>
    decreases frags,
{
    if frags.len() == 0 {
        Seq::empty()
    } else {
        spread_entries_in_selections(frags[0].selections@) + spread_entries_in_fragments(
            frags.drop_first(),
        )
    }
}

/// Every spread reference in the program, in traversal order.
pub open spec fn program_spread_entries(program: Program) -> Seq<NameRef> {
    spread_entries_in_operations(program.operations@) + spread_entries_in_fragments(
        program.fragments@,
    )
}

/// The locations of exactly those entries whose target is `name`, with
/// their order kept.
pub open spec fn matching_locations(entries: Seq<NameRef>, name: NameKey) -> Seq<RawLocation>
    decreases entries,
{
    if entries.len() == 0 {
        Seq::empty()
    } else {
        (if entries[0].item == name {
            seq![entries[0].location]
        } else {
            Seq::empty()
        }) + matching_locations(entries.drop_first(), name)
    }
}

proof fn lemma_matching_concat(a: Seq<NameRef>, b: Seq<NameRef>, name: NameKey)
    ensures
        matching_locations(a + b, name) == matching_locations(a, name) + matching_locations(
            b,
            name,
        ),
    decreases a,
{
    if a.len() == 0 {
        assert(a + b =~= b);
        assert(matching_locations(a, name) + matching_locations(b, name) =~= matching_locations(
            b,
            name,
        ));
    } else {
        assert((a + b).drop_first() =~= a.drop_first() + b);
        lemma_matching_concat(a.drop_first(), b, name);
        assert((a + b)[0] == a[0]);
        let head = if a[0].item == name {
            seq![a[0].location]
        } else {
            Seq::<RawLocation>::empty()
        };
        assert(head + (matching_locations(a.drop_first(), name) + matching_locations(b, name))
            =~= (head + matching_locations(a.drop_first(), name)) + matching_locations(b, name));
    }
}

proof fn lemma_selection_refs_are_matching(s: Selection, name: NameKey)
    ensures
        spread_refs_in_selection(s, name) == matching_locations(
            spread_entries_in_selection(s),
            name,
        ),
    decreases s,
{
    match s {
        Selection::FragmentSpread(sp) => {
            assert(seq![sp.fragment].drop_first() =~= Seq::<NameRef>::empty());
            assert(seq![sp.fragment][0] == sp.fragment);
            let head = if sp.fragment.item == name {
                seq![sp.fragment.location]
            } else {
                Seq::<RawLocation>::empty()
            };
            assert(matching_locations(Seq::<NameRef>::empty(), name) == Seq::<
                RawLocation,
            >::empty());
            assert(matching_locations(seq![sp.fragment], name) == head + Seq::<
                RawLocation,
            >::empty());
            assert(head + Seq::<RawLocation>::empty() =~= head);
        },
        Selection::InlineFragment(f) => lemma_selections_refs_are_matching(f.selections@, name),
        Selection::LinkedField(f) => lemma_selections_refs_are_matching(f.selections@, name),
        Selection::ScalarField(_) => (),
        Selection::Condition(c) => lemma_selections_refs_are_matching(c.selections@, name),
    }
}

proof fn lemma_selections_refs_are_matching(ss: Seq<Selection>, name: NameKey)
    ensures
        spread_refs_in_selections(ss, name) == matching_locations(
            spread_entries_in_selections(ss),
            name,
        ),
    decreases ss,
{
    if ss.len() > 0 {
        lemma_selection_refs_are_matching(ss[0], name);
        lemma_selections_refs_are_matching(ss.drop_first(), name);
        lemma_matching_concat(
            spread_entries_in_selection(ss[0]),
            spread_entries_in_selections(ss.drop_first()),
            name,
        );
    }
}

proof fn lemma_operations_refs_are_matching(ops: Seq<OperationDefinition>, name: NameKey)
    ensures
        spread_refs_in_operations(ops, name) == matching_locations(
            spread_entries_in_operations(ops),
            name,
        ),
    decreases ops,
{
    if ops.len() > 0 {
        lemma_selections_refs_are_matching(ops[0].selections@, name);
        lemma_operations_refs_are_matching(ops.drop_first(), name);
        lemma_matching_concat(
            spread_entries_in_selections(ops[0].selections@),
            spread_entries_in_operations(ops.drop_first()),
            name,
        );
    }
}

proof fn lemma_fragments_refs_are_matching(frags: Seq<FragmentDefinition>, name: NameKey)
    ensures
        spread_refs_in_fragments(frags, name) == matching_locations(
            spread_entries_in_fragments(frags),
            name,
        ),
    decreases frags,
{
    if frags.len() > 0 {
        lemma_selections_refs_are_matching(frags[0].selections@, name);
        lemma_fragments_refs_are_matching(frags.drop_first(), name);
        lemma_matching_concat(
            spread_entries_in_selections(frags[0].selections@),
            spread_entries_in_fragments(frags.drop_first()),
            name,
        );
    }
}

/// The finder's result is exactly the subsequence of all spread
/// references in the program whose target equals the queried name, in
/// traversal order: nothing else is reported, and nothing is merged or
/// reordered.
pub proof fn lemma_fragment_refs_are_matching_spreads(program: Program, name: NameKey)
    ensures
        fragment_refs(program, name) == matching_locations(
            program_spread_entries(program),
            name,
        ),
{
    lemma_operations_refs_are_matching(program.operations@, name);
    lemma_fragments_refs_are_matching(program.fragments@, name);
    lemma_matching_concat(
        spread_entries_in_operations(program.operations@),
        spread_entries_in_fragments(program.fragments@),
        name,
    );
}

proof fn lemma_matching_none(entries: Seq<NameRef>, name: NameKey)
    requires
        forall|i: int| 0 <= i < entries.len() ==> (#[trigger] entries[i]).item != name,
    ensures
        matching_locations(entries, name) == Seq::<RawLocation>::empty(),
    decreases entries,
{
    if entries.len() > 0 {
        assert(forall|i: int|
            0 <= i < entries.drop_first().len() ==> (#[trigger] entries.drop_first()[i]).item
                != name);
        lemma_matching_none(entries.drop_first(), name);
        assert(Seq::<RawLocation>::empty() + Seq::<RawLocation>::empty() =~= Seq::<
            RawLocation,
        >::empty());
    }
}

/// A name that is not the target of any spread in the program yields
/// the empty sequence — never an error.
pub proof fn lemma_unspread_fragment_has_no_refs(program: Program, name: NameKey)
    requires
        forall|i: int|
            0 <= i < program_spread_entries(program).len() ==> (#[trigger] program_spread_entries(
                program,
            )[i]).item != name,
    ensures
        fragment_refs(program, name) == Seq::<RawLocation>::empty(),
{
    lemma_fragment_refs_are_matching_spreads(program, name);
    lemma_matching_none(program_spread_entries(program), name);
}

/// Two selection nodes that agree on everything except their argument
/// and directive lists, at any depth.
pub open spec fn same_selection_shape(a: Selection, b: Selection) -> bool
    decreases a,
{
    match (a, b) {
        (Selection::FragmentSpread(x), Selection::FragmentSpread(y)) => x.fragment == y.fragment,
        (Selection::InlineFragment(x), Selection::InlineFragment(y)) => x.type_condition
            == y.type_condition && same_selections_shape(x.selections@, y.selections@),
        (Selection::LinkedField(x), Selection::LinkedField(y)) => x.name == y.name
            && same_selections_shape(x.selections@, y.selections@),
        (Selection::ScalarField(x), Selection::ScalarField(y)) => x.name == y.name,
        (Selection::Condition(x), Selection::Condition(y)) => x.passing_value == y.passing_value
            && same_selections_shape(x.selections@, y.selections@),
        _ => false,
    }
}

/// Two selection lists that agree up to argument and directive lists.
pub open spec fn same_selections_shape(a: Seq<Selection>, b: Seq<Selection>) -> bool
    decreases a,
{
    &&& a.len() == b.len()
    &&& a.len() > 0 ==> same_selection_shape(a[0], b[0]) && same_selections_shape(
        a.drop_first(),
        b.drop_first(),
    )
}

/// Two operation lists that agree up to argument and directive lists.
pub open spec fn same_operations_shape(a: Seq<OperationDefinition>, b: Seq<OperationDefinition>) -> bool
    decreases a,
{
    &&& a.len() == b.len()
    &&& a.len() > 0 ==> a[0].name == b[0].name && same_selections_shape(
        a[0].selections@,
        b[0].selections@,
    ) && same_operations_shape(a.drop_first(), b.drop_first())
}

/// Two fragment lists that agree up to argument and directive lists.
pub open spec fn same_fragments_shape(a: Seq<FragmentDefinition>, b: Seq<FragmentDefinition>) -> bool
    decreases a,
{
    &&& a.len() == b.len()
    &&& a.len() > 0 ==> a[0].name == b[0].name && same_selections_shape(
        a[0].selections@,
        b[0].selections@,
    ) && same_fragments_shape(a.drop_first(), b.drop_first())
}

/// Two programs that agree on everything except the argument and
/// directive lists of their nodes, at any depth.
pub open spec fn same_program_shape(a: Program, b: Program) -> bool {
    same_operations_shape(a.operations@, b.operations@) && same_fragments_shape(
        a.fragments@,
        b.fragments@,
    )
}

proof fn lemma_selection_refs_depend_on_shape(a: Selection, b: Selection, name: NameKey)
    requires
        same_selection_shape(a, b),
    ensures
        spread_refs_in_selection(a, name) == spread_refs_in_selection(b, name),
    decreases a,
{
    match (a, b) {
        (Selection::InlineFragment(x), Selection::InlineFragment(y)) => {
            lemma_selections_refs_depend_on_shape(x.selections@, y.selections@, name);
        },
        (Selection::LinkedField(x), Selection::LinkedField(y)) => {
            lemma_selections_refs_depend_on_shape(x.selections@, y.selections@, name);
        },
        (Selection::Condition(x), Selection::Condition(y)) => {
            lemma_selections_refs_depend_on_shape(x.selections@, y.selections@, name);
        },
        _ => (),
    }
}

proof fn lemma_selections_refs_depend_on_shape(a: Seq<Selection>, b: Seq<Selection>, name: NameKey)
    requires
        same_selections_shape(a, b),
    ensures
        spread_refs_in_selections(a, name) == spread_refs_in_selections(b, name),
    decreases a,
{
    if a.len() > 0 {
        lemma_selection_refs_depend_on_shape(a[0], b[0], name);
        lemma_selections_refs_depend_on_shape(a.drop_first(), b.drop_first(), name);
    }
}

proof fn lemma_operations_refs_depend_on_shape(
    a: Seq<OperationDefinition>,
    b: Seq<OperationDefinition>,
    name: NameKey,
)
    requires
        same_operations_shape(a, b),
    ensures
        spread_refs_in_operations(a, name) == spread_refs_in_operations(b, name),
    decreases a,
{
    if a.len() > 0 {
        lemma_selections_refs_depend_on_shape(a[0].selections@, b[0].selections@, name);
        lemma_operations_refs_depend_on_shape(a.drop_first(), b.drop_first(), name);
    }
}

proof fn lemma_fragments_refs_depend_on_shape(
    a: Seq<FragmentDefinition>,
    b: Seq<FragmentDefinition>,
    name: NameKey,
)
    requires
        same_fragments_shape(a, b),
    ensures
        spread_refs_in_fragments(a, name) == spread_refs_in_fragments(b, name),
    decreases a,
{
    if a.len() > 0 {
        lemma_selections_refs_depend_on_shape(a[0].selections@, b[0].selections@, name);
        lemma_fragments_refs_depend_on_shape(a.drop_first(), b.drop_first(), name);
    }
}

/// Pruning: the finder never enters argument or directive subtrees.
/// Two programs that agree on everything else — however their argument
/// and directive lists differ, at any depth — yield identical results
/// for every queried name.
pub proof fn lemma_finder_prunes_arguments_and_directives(a: Program, b: Program, name: NameKey)
    requires
        same_program_shape(a, b),
    ensures
        fragment_refs(a, name) == fragment_refs(b, name),
{
    lemma_operations_refs_depend_on_shape(a.operations@, b.operations@, name);
    lemma_fragments_refs_depend_on_shape(a.fragments@, b.fragments@, name);
}

} // verus!
