use vstd::prelude::*;

use crate::errors::CoherenceError;
use crate::ids::{fresh_id, now_timestamp, parse_id, parsed_id, Id};

verus! {

/// A lightweight listing entry for one dialogue: what the UI needs to show
/// the dialogue list without loading the full graph.
#[derive(Debug, Clone, PartialEq)]
pub struct SimpleDialog {
    pub id: Id,
    pub name: String,
    pub main_character: Id,
    pub characters: Vec<Id>,
}

/// The per-project dialogue summary record: one `SimpleDialog` per stored
/// dialogue, keyed by the dialogue's id (ids are unique when well-formed).
#[derive(Debug, Clone, PartialEq)]
pub struct DialogMetadata {
    pub data: Vec<SimpleDialog>,
}

/// A full dialogue graph: an arena of nodes that reference each other by id.
#[derive(Debug, Clone, PartialEq)]
pub struct Dialog {
    pub id: Id,
    pub name: String,
    pub root_node: Option<Id>,
    pub characters_ids: Vec<Id>,
    /// Seconds since the epoch at creation time.
    pub created_at: i64,
    pub main_character: Id,
    pub nodes: Vec<Node>,
}

/// One node of a dialogue graph, at a position on the authoring canvas.
#[derive(Debug, Clone, PartialEq)]
pub struct Node {
    pub id: Id,
    pub pos_x: i32,
    pub pos_y: i32,
    pub data: NodeData,
}

/// The closed set of node kinds.
#[derive(Debug, Clone, PartialEq)]
pub enum NodeData {
    Dialog(DialogNode),
    Phylum(Phylum),
    Choices(Choices),
}

/// A set of player choices; each choice may lead to another node.
#[derive(Debug, Clone, PartialEq)]
pub struct Choices {
    pub choices: Vec<Choice>,
}

#[derive(Debug, Clone, PartialEq)]
pub struct Choice {
    pub id: Id,
    pub content: String,
    pub next_node: Option<Id>,
}

/// A spoken line.  Its text is either inline in `content` or externalized
/// into a separately stored blob addressed by `content_link` — never both in
/// a persisted graph.
#[derive(Debug, Clone, PartialEq)]
pub struct DialogNode {
    pub next_node: Option<Id>,
    pub character_id: Option<Id>,
    pub content_link: Option<Id>,
    pub content: Option<String>,
}

/// A branch ("phylum") node: its outgoing edge is chosen by evaluating
/// prioritized conditions against variable state.
#[derive(Debug, Clone, PartialEq)]
pub struct Phylum {
    pub id: Id,
    pub name: Option<String>,
    pub branches: Vec<Conditions>,
}

/// One prioritized branch-selection rule.
#[derive(Debug, Clone, PartialEq)]
pub struct Conditions {
    pub id: Id,
    pub priority: i32,
    pub name: String,
    pub necessities: Option<NecessityExpression>,
    pub next_node: Option<Id>,
}

pub type Operator = String;

/// A boolean combination of two requirement subtrees.
#[derive(Debug, PartialEq)]
pub struct TreeNecessity {
    pub left: Box<NecessityExpression>,
    pub operator: Operator,
    pub right: Box<NecessityExpression>,
}

/// A requirement over variable state: either a single variable-state check
/// or a boolean combination of two subtrees.
#[derive(Debug, PartialEq)]
pub enum NecessityExpression {
    Tree(TreeNecessity),
    Var(VarNecessity),
}

/// A leaf requirement: the named variable must be in the named state.
#[derive(Debug, PartialEq)]
pub struct VarNecessity {
    pub var_id: Id,
    pub necessary_state: String,
}

/// The form a user fills to create a new dialogue.
#[derive(Debug, Clone, PartialEq)]
pub struct DialogCreationForm {
    pub name: String,
    pub main_char_id: String,
}

/// The structural difference between two versions of the same dialogue:
/// branch nodes present only in the new version and branch nodes present
/// only in the previous one.  Membership is by branch id, not by content.
pub struct PhylumDiff<'a> {
    pub added: Vec<&'a Phylum>,
    pub deleted: Vec<&'a Phylum>,
}

/// One externalized text payload, addressed by the id of the node it was
/// split from.
#[derive(Debug, PartialEq)]
pub struct DialogContent {
    pub content: String,
    pub node_id: Id,
}

impl Clone for DialogContent {
    fn clone(&self) -> (r: Self)
        ensures
            r == *self,
    {
        DialogContent { content: self.content.clone(), node_id: self.node_id }
    }
}

impl Clone for VarNecessity {
    fn clone(&self) -> (r: Self)
        ensures
            r == *self,
    {
        VarNecessity { var_id: self.var_id, necessary_state: self.necessary_state.clone() }
    }
}

impl Clone for NecessityExpression {
    fn clone(&self) -> (r: Self)
        ensures
            r == *self,
        decreases *self,
    {
        match self {
            NecessityExpression::Var(v) => NecessityExpression::Var(v.clone()),
            NecessityExpression::Tree(t) => NecessityExpression::Tree(
                TreeNecessity {
                    left: Box::new((*t.left).clone()),
                    operator: t.operator.clone(),
                    right: Box::new((*t.right).clone()),
                },
            ),
        }
    }
}

// ---------------------------------------------------------------------------
// Spec-level structure of a graph
// ---------------------------------------------------------------------------

/// No two elements of the sequence are equal.
pub open spec fn unique_seq<A>(s: Seq<A>) -> bool {
    forall|i: int, j: int| 0 <= i < j < s.len() ==> s[i] != s[j]
}

/// The branch nodes of a node sequence, in node order.
pub open spec fn phylums_of(nodes: Seq<Node>) -> Seq<Phylum>
    decreases nodes.len(),
{
    if nodes.len() == 0 {
        Seq::empty()
    } else {
        let rest = phylums_of(nodes.drop_last());
        match nodes.last().data {
            NodeData::Phylum(p) => rest.push(p),
            _ => rest,
        }
    }
}

pub open spec fn phylum_ids(ps: Seq<Phylum>) -> Seq<Id> {
    ps.map_values(|p: Phylum| p.id)
}

/// The sequence a vector of borrowed branch nodes stands for.
pub open spec fn deref_phylums(ps: Seq<&Phylum>) -> Seq<Phylum> {
    ps.map_values(|p: &Phylum| *p)
}

/// The variables required by a requirement tree, rightmost subtree first
/// (the order in which the collector emits them).
pub open spec fn expr_vars(e: NecessityExpression) -> Seq<Id>
    decreases e,
{
    match e {
        NecessityExpression::Var(v) => seq![v.var_id],
        NecessityExpression::Tree(t) => expr_vars(*t.right) + expr_vars(*t.left),
    }
}

pub open spec fn cond_vars(c: Conditions) -> Seq<Id> {
    match c.necessities {
        Some(e) => expr_vars(e),
        None => Seq::empty(),
    }
}

pub open spec fn conds_vars(cs: Seq<Conditions>) -> Seq<Id>
    decreases cs.len(),
{
    if cs.len() == 0 {
        Seq::empty()
    } else {
        conds_vars(cs.drop_last()) + cond_vars(cs.last())
    }
}

/// The variables referenced anywhere in a branch node's conditions.
pub open spec fn phylum_vars(p: Phylum) -> Seq<Id> {
    conds_vars(p.branches@)
}

impl Dialog {
    pub open spec fn node_ids(self) -> Seq<Id> {
        self.nodes@.map_values(|n: Node| n.id)
    }

    pub open spec fn spec_has_node(self, id: Id) -> bool {
        self.node_ids().contains(id)
    }

    pub open spec fn phylums(self) -> Seq<Phylum> {
        phylums_of(self.nodes@)
    }

    /// Well-formedness of a persisted graph: node ids are unique, and so are
    /// the ids of its branch nodes.
    pub open spec fn wf(self) -> bool {
        &&& unique_seq(self.node_ids())
        &&& unique_seq(phylum_ids(self.phylums()))
    }
}

// ---------------------------------------------------------------------------
// Basic accessors
// ---------------------------------------------------------------------------

impl Node {
    pub fn get_data(&self) -> (r: &NodeData)
        ensures
            *r == self.data,
    {
        &self.data
    }

    pub fn get_id(&self) -> (r: &Id)
        ensures
            *r == self.id,
    {
        &self.id
    }
}

impl Phylum {
    pub fn get_id(&self) -> (r: &Id)
        ensures
            *r == self.id,
    {
        &self.id
    }
}

/// Whether a summary entry is the one a dialogue contributes to the listing
/// record: same id, name, main character and participant list.
pub open spec fn spec_simple_of(s: SimpleDialog, d: Dialog) -> bool {
    &&& s.id == d.id
    &&& s.name == d.name
    &&& s.main_character == d.main_character
    &&& s.characters@ == d.characters_ids@
}

impl SimpleDialog {
    /// The summary entry of one dialogue: its id, name, main character and
    /// participant list, nothing more.
    pub fn from_dialog(dialog: &Dialog) -> (r: Self)
        ensures
            spec_simple_of(r, *dialog),
    {
        SimpleDialog {
            id: dialog.id,
            name: dialog.name.clone(),
            main_character: dialog.main_character,
            characters: clone_id_vec(&dialog.characters_ids),
        }
    }
}

pub(crate) fn clone_id_vec(v: &Vec<Id>) -> (r: Vec<Id>)
    ensures
        r@ == v@,
{
    let mut out: Vec<Id> = Vec::new();
    let mut i: usize = 0;
    while i < v.len()
        invariant
            i <= v.len(),
            out@ =~= v@.take(i as int),
        decreases v.len() - i,
    {
        out.push(v[i]);
        assert(out@ =~= v@.take(i + 1));
        i = i + 1;
    }
    assert(out@ =~= v@);
    out
}

/// Whether a vector of ids contains the given id.
pub(crate) fn contains_id(ids: &Vec<Id>, x: Id) -> (b: bool)
    ensures
        b == ids@.contains(x),
{
    let mut i: usize = 0;
    while i < ids.len()
        invariant
            i <= ids.len(),
            forall|j: int| 0 <= j < i ==> ids@[j] != x,
        decreases ids.len() - i,
    {
        if ids[i] == x {
            return true;
        }
        i = i + 1;
    }
    false
}

/// The mathematical value of one summary entry: id, name, main character
/// and participant list.
pub type SimpleDialogV = (Id, Seq<char>, Id, Seq<Id>);

pub open spec fn simple_view(s: SimpleDialog) -> SimpleDialogV {
    (s.id, s.name@, s.main_character, s.characters@)
}

/// The summary entry a dialogue contributes to the listing record.
pub open spec fn dialog_summary(d: Dialog) -> SimpleDialogV {
    (d.id, d.name@, d.main_character, d.characters_ids@)
}

impl View for DialogMetadata {
    type V = Seq<SimpleDialogV>;

    open spec fn view(&self) -> Seq<SimpleDialogV> {
        self.data@.map_values(|s: SimpleDialog| simple_view(s))
    }
}

/// The listing after storing an entry: an entry under the same id is
/// replaced in place, a new id is appended at the end.
pub open spec fn spec_upsert(s: Seq<SimpleDialogV>, sv: SimpleDialogV) -> Seq<SimpleDialogV>
    decreases s.len(),
{
    if s.len() == 0 {
        seq![sv]
    } else if s[0].0 == sv.0 {
        seq![sv] + s.drop_first()
    } else {
        seq![s[0]] + spec_upsert(s.drop_first(), sv)
    }
}

/// The listing with every entry of the given id removed.
pub open spec fn spec_remove_meta(s: Seq<SimpleDialogV>, id: Id) -> Seq<SimpleDialogV>
    decreases s.len(),
{
    if s.len() == 0 {
        Seq::empty()
    } else if s[0].0 == id {
        spec_remove_meta(s.drop_first(), id)
    } else {
        seq![s[0]] + spec_remove_meta(s.drop_first(), id)
    }
}

/// The dialogue ids of a listing, in listing order.
pub open spec fn meta_keys(s: Seq<SimpleDialogV>) -> Seq<Id> {
    s.map_values(|e: SimpleDialogV| e.0)
}

proof fn lemma_upsert_keys(s: Seq<SimpleDialogV>, sv: SimpleDialogV)
    ensures
        meta_keys(spec_upsert(s, sv)) == (if meta_keys(s).contains(sv.0) {
            meta_keys(s)
        } else {
            meta_keys(s).push(sv.0)
        }),
    decreases s.len(),
{
    let out = spec_upsert(s, sv);
    if s.len() == 0 {
        assert(!meta_keys(s).contains(sv.0));
        assert(meta_keys(out) =~= meta_keys(s).push(sv.0));
    } else if s[0].0 == sv.0 {
        assert(meta_keys(s)[0] == sv.0);
        assert(meta_keys(out) =~= meta_keys(s));
    } else {
        lemma_upsert_keys(s.drop_first(), sv);
        let rest = spec_upsert(s.drop_first(), sv);
        assert(out =~= seq![s[0]] + rest);
        assert(meta_keys(out) =~= seq![s[0].0] + meta_keys(rest));
        assert(meta_keys(s) =~= seq![s[0].0] + meta_keys(s.drop_first()));
        crate::seq_facts::lemma_cons_contains(s[0].0, meta_keys(s.drop_first()), sv.0);
        if meta_keys(s).contains(sv.0) {
            assert(meta_keys(s.drop_first()).contains(sv.0));
            assert(meta_keys(out) =~= meta_keys(s));
        } else {
            assert(meta_keys(out) =~= meta_keys(s).push(sv.0));
        }
    }
}

proof fn lemma_upsert_unique(s: Seq<SimpleDialogV>, sv: SimpleDialogV)
    requires
        unique_seq(meta_keys(s)),
    ensures
        unique_seq(meta_keys(spec_upsert(s, sv))),
{
    lemma_upsert_keys(s, sv);
    if !meta_keys(s).contains(sv.0) {
        crate::seq_facts::lemma_push_unique(meta_keys(s), sv.0);
    }
}

proof fn lemma_remove_meta_contains(s: Seq<SimpleDialogV>, id: Id, y: Id)
    ensures
        meta_keys(spec_remove_meta(s, id)).contains(y) <==> (meta_keys(s).contains(y) && y
            != id),
    decreases s.len(),
{
    if s.len() > 0 {
        lemma_remove_meta_contains(s.drop_first(), id, y);
        assert(meta_keys(s) =~= seq![s[0].0] + meta_keys(s.drop_first()));
        crate::seq_facts::lemma_cons_contains(s[0].0, meta_keys(s.drop_first()), y);
        if s[0].0 != id {
            let rest = spec_remove_meta(s.drop_first(), id);
            assert(spec_remove_meta(s, id) =~= seq![s[0]] + rest);
            assert(meta_keys(spec_remove_meta(s, id)) =~= seq![s[0].0] + meta_keys(rest));
            crate::seq_facts::lemma_cons_contains(s[0].0, meta_keys(rest), y);
        }
    }
}

proof fn lemma_remove_meta_unique(s: Seq<SimpleDialogV>, id: Id)
    requires
        unique_seq(meta_keys(s)),
    ensures
        unique_seq(meta_keys(spec_remove_meta(s, id))),
    decreases s.len(),
{
    if s.len() > 0 {
        assert(meta_keys(s) =~= seq![s[0].0] + meta_keys(s.drop_first()));
        crate::seq_facts::lemma_cons_unique(s[0].0, meta_keys(s.drop_first()));
        lemma_remove_meta_unique(s.drop_first(), id);
        if s[0].0 != id {
            let rest = spec_remove_meta(s.drop_first(), id);
            assert(spec_remove_meta(s, id) =~= seq![s[0]] + rest);
            assert(meta_keys(spec_remove_meta(s, id)) =~= seq![s[0].0] + meta_keys(rest));
            lemma_remove_meta_contains(s.drop_first(), id, s[0].0);
            crate::seq_facts::lemma_cons_unique(s[0].0, meta_keys(rest));
        }
    }
}

impl DialogMetadata {
    pub fn new() -> (r: Self)
        ensures
            r@ == Seq::<SimpleDialogV>::empty(),
            r.wf(),
    {
        let r = DialogMetadata { data: Vec::new() };
        proof {
            assert(r@ =~= Seq::<SimpleDialogV>::empty());
            assert(r.spec_ids() =~= Seq::<Id>::empty());
        }
        r
    }

    pub open spec fn spec_ids(self) -> Seq<Id> {
        meta_keys(self@)
    }

    pub open spec fn spec_has(self, id: Id) -> bool {
        self.spec_ids().contains(id)
    }

    /// The listing is well-formed when no dialogue id occurs twice.
    pub open spec fn wf(self) -> bool {
        unique_seq(self.spec_ids())
    }

    /// Whether the listing holds an entry for the dialogue.
    pub fn has_dialog(&self, id: Id) -> (b: bool)
        ensures
            b == self.spec_has(id),
    {
        let mut i: usize = 0;
        while i < self.data.len()
            invariant
                i <= self.data.len(),
                forall|j: int| 0 <= j < i ==> (#[trigger] self@[j]).0 != id,
            decreases self.data.len() - i,
        {
            if self.data[i].id == id {
                proof {
                    assert(self.spec_ids()[i as int] == id);
                }
                return true;
            }
            i = i + 1;
        }
        proof {
            assert forall|j: int| 0 <= j < self.spec_ids().len() implies self.spec_ids()[j]
                != id by {
                assert(self.spec_ids()[j] == self@[j].0);
            }
        }
        false
    }

    /// Stores a summary entry: replaces the entry of the same dialogue if
    /// one exists, appends it otherwise.
    pub fn upsert_dialog(&mut self, sd: SimpleDialog)
        ensures
            final(self)@ == spec_upsert(old(self)@, simple_view(sd)),
            old(self).wf() ==> final(self).wf(),
    {
        proof {
            if self.wf() {
                lemma_upsert_unique(self@, simple_view(sd));
            }
        }
        proof {
            assert(self@.skip(0) =~= self@);
            assert(self@.take(0) =~= Seq::<SimpleDialogV>::empty());
        }
        let ghost sv = simple_view(sd);
        let mut j: usize = 0;
        while j < self.data.len()
            invariant
                j <= self.data.len(),
                *self == *old(self),
                old(self).wf() ==> unique_seq(meta_keys(spec_upsert(old(self)@, sv))),
                spec_upsert(old(self)@, sv) =~= old(self)@.take(j as int) + spec_upsert(
                    old(self)@.skip(j as int),
                    sv,
                ),
                sv == simple_view(sd),
            decreases self.data.len() - j,
        {
            proof {
                assert(self@.skip(j as int)[0] == self@[j as int]);
                assert(self@.skip(j as int).drop_first() =~= self@.skip(j + 1));
            }
            if self.data[j].id == sd.id {
                let ghost before = self.data@;
                self.data.remove(j);
                self.data.insert(j, sd);
                proof {
                    assert(self.data@ =~= before.update(j as int, sd));
                    assert(self@ =~= old(self)@.update(j as int, sv));
                    assert(spec_upsert(old(self)@.skip(j as int), sv) =~= seq![sv] + old(
                        self,
                    )@.skip(j + 1));
                    assert(self@ =~= old(self)@.take(j as int) + (seq![sv] + old(self)@.skip(
                        j + 1,
                    )));
                }
                return;
            }
            proof {
                assert(spec_upsert(old(self)@.skip(j as int), sv) =~= seq![
                    old(self)@[j as int],
                ] + spec_upsert(old(self)@.skip(j + 1), sv));
                assert(old(self)@.take(j as int) + (seq![old(self)@[j as int]] + spec_upsert(
                    old(self)@.skip(j + 1),
                    sv,
                )) =~= old(self)@.take(j + 1) + spec_upsert(old(self)@.skip(j + 1), sv));
            }
            j = j + 1;
        }
        self.data.push(sd);
        proof {
            assert(old(self)@.skip(old(self)@.len() as int) =~= Seq::<SimpleDialogV>::empty());
            assert(old(self)@.take(old(self)@.len() as int) =~= old(self)@);
            assert(self@ =~= old(self)@.push(sv));
            assert(old(self)@ + seq![sv] =~= old(self)@.push(sv));
            assert(self@ =~= spec_upsert(old(self)@, sv));
        }
    }

    /// Removes the entry of the given dialogue; fails, changing nothing,
    /// exactly when the listing has no such entry.
    pub fn delete_dialog_by_id(&mut self, id: &Id) -> (r: Result<(), CoherenceError>)
        ensures
            r is Ok <==> old(self).spec_has(*id),
            r is Ok ==> final(self)@ == spec_remove_meta(old(self)@, *id),
            r is Err ==> *final(self) == *old(self),
            r matches Err(e) ==> e == (CoherenceError::NotFound { id: *id }),
            old(self).wf() ==> final(self).wf(),
    {
        proof {
            if self.wf() {
                lemma_remove_meta_unique(self@, *id);
            }
        }
        if !self.has_dialog(*id) {
            return Err(CoherenceError::NotFound { id: *id });
        }
        proof {
            assert(self@.skip(0) =~= self@);
            assert(self@.take(0) =~= Seq::<SimpleDialogV>::empty());
        }
        let mut i: usize = 0;
        while i < self.data.len()
            invariant
                i <= self.data.len(),
                spec_remove_meta(old(self)@, *id) =~= self@.take(i as int) + spec_remove_meta(
                    self@.skip(i as int),
                    *id,
                ),
                forall|j: int| 0 <= j < i ==> (#[trigger] self@[j]).0 != *id,
            decreases self.data.len() - i,
        {
            proof {
                assert(self@.skip(i as int)[0] == self@[i as int]);
                assert(self@.skip(i as int).drop_first() =~= self@.skip(i + 1));
            }
            if self.data[i].id == *id {
                let ghost before = self@;
                self.data.remove(i);
                proof {
                    assert(self@ =~= before.remove(i as int));
                    assert(self@.take(i as int) =~= before.take(i as int));
                    assert(self@.skip(i as int) =~= before.skip(i + 1));
                }
            } else {
                proof {
                    assert(self@.take(i + 1) =~= self@.take(i as int) + seq![self@[i as int]]);
                    assert(self@.take(i as int) + spec_remove_meta(self@.skip(i as int), *id)
                        =~= self@.take(i + 1) + spec_remove_meta(self@.skip(i + 1), *id));
                }
                i = i + 1;
            }
        }
        proof {
            assert(self@.skip(i as int) =~= Seq::<SimpleDialogV>::empty());
            assert(self@.take(i as int) =~= self@);
            assert(self@.take(i as int) + spec_remove_meta(self@.skip(i as int), *id) =~= self@);
        }
        Ok(())
    }

    /// Checks that this listing and `other` describe the same set of
    /// dialogues: used to accept listing edits that reorder or rename but
    /// neither add nor drop a dialogue.  On failure the error names an id
    /// present in exactly one of the two.
    pub fn enforce_metadata_contains_same_dialogs(&self, other: &DialogMetadata) -> (r: Result<
        (),
        CoherenceError,
    >)
        ensures
            r is Ok <==> (forall|id: Id| self.spec_has(id) == other.spec_has(id)),
            r matches Err(e) ==> (e matches CoherenceError::NotFound { id } && self.spec_has(id)
                != other.spec_has(id)),
    {
        let mut i: usize = 0;
        while i < self.data.len()
            invariant
                i <= self.data.len(),
                forall|j: int| 0 <= j < i ==> other.spec_has((#[trigger] self@[j]).0),
            decreases self.data.len() - i,
        {
            let id = self.data[i].id;
            if !other.has_dialog(id) {
                proof {
                    assert(self.spec_ids()[i as int] == id);
                    assert(self.spec_has(id));
                }
                return Err(CoherenceError::NotFound { id });
            }
            proof {
                assert(self@[i as int].0 == id);
            }
            i = i + 1;
        }
        let mut j: usize = 0;
        while j < other.data.len()
            invariant
                j <= other.data.len(),
                forall|k: int| 0 <= k < other.data@.len() ==> other.data@[k] == other.data@[k],
                forall|k: int|
                    0 <= k < self.data@.len() ==> other.spec_has((#[trigger] self@[k]).0),
                forall|k: int| 0 <= k < j ==> self.spec_has((#[trigger] other@[k]).0),
            decreases other.data.len() - j,
        {
            let id = other.data[j].id;
            if !self.has_dialog(id) {
                proof {
                    assert(other.spec_ids()[j as int] == id);
                    assert(other.spec_has(id));
                }
                return Err(CoherenceError::NotFound { id });
            }
            proof {
                assert(other@[j as int].0 == id);
            }
            j = j + 1;
        }
        proof {
            assert forall|id: Id| self.spec_has(id) == other.spec_has(id) by {
                if self.spec_has(id) {
                    let k = choose|k: int|
                        0 <= k < self.spec_ids().len() && self.spec_ids()[k] == id;
                    assert(self@[k].0 == id);
                }
                if other.spec_has(id) {
                    let k = choose|k: int|
                        0 <= k < other.spec_ids().len() && other.spec_ids()[k] == id;
                    assert(other@[k].0 == id);
                }
            }
        }
        Ok(())
    }
}

impl Dialog {
    pub fn get_id(&self) -> (r: Id)
        ensures
            r == self.id,
    {
        self.id
    }

    pub fn get_nodes(&self) -> (r: &Vec<Node>)
        ensures
            *r == self.nodes,
    {
        &self.nodes
    }

    /// Builds a new dialogue from the creation form: a fresh id, the given
    /// name, the parsed main-character id, the current time, and no nodes.
    /// Fails exactly when the form's main-character id does not parse.
    pub fn from_dialog_creation_form(form: DialogCreationForm) -> (r: Result<Self, CoherenceError>)
        ensures
            r matches Ok(d) ==> {
                &&& parsed_id(form.main_char_id@) == Some(d.main_character)
                &&& d.name == form.name
                &&& d.root_node is None
                &&& d.characters_ids@ == Seq::<Id>::empty()
                &&& d.nodes@ == Seq::<Node>::empty()
                &&& d.wf()
            },
            r is Err <==> parsed_id(form.main_char_id@) is None,
            r matches Err(e) ==> e == CoherenceError::CorruptRecord,
    {
        let char_id = match parse_id(form.main_char_id.as_str()) {
            Some(c) => c,
            None => {
                return Err(CoherenceError::CorruptRecord);
            },
        };
        let id = fresh_id();
        let created_at = now_timestamp();
        let d = Dialog {
            id,
            name: form.name,
            root_node: None,
            characters_ids: Vec::new(),
            created_at,
            main_character: char_id,
            nodes: Vec::new(),
        };
        proof {
            assert(d.node_ids() =~= Seq::<Id>::empty());
            assert(d.phylums() =~= Seq::<Phylum>::empty());
            assert(phylum_ids(d.phylums()) =~= Seq::<Id>::empty());
        }
        Ok(d)
    }
}

// ---------------------------------------------------------------------------
// Coherence of a graph snapshot
// ---------------------------------------------------------------------------

pub open spec fn spec_choice_ok(c: Choice, d: Dialog) -> bool {
    c.next_node matches Some(t) ==> d.spec_has_node(t)
}

pub open spec fn spec_cond_link_ok(c: Conditions, d: Dialog) -> bool {
    c.next_node matches Some(t) ==> d.spec_has_node(t)
}

/// Every outgoing reference of the node resolves to a node of the graph.
pub open spec fn spec_node_links_ok(n: Node, d: Dialog) -> bool {
    match n.data {
        NodeData::Dialog(dn) => dn.next_node matches Some(t) ==> d.spec_has_node(t),
        NodeData::Choices(cs) => forall|i: int|
            0 <= i < cs.choices@.len() ==> spec_choice_ok(#[trigger] cs.choices@[i], d),
        NodeData::Phylum(p) => forall|i: int|
            0 <= i < p.branches@.len() ==> spec_cond_link_ok(#[trigger] p.branches@[i], d),
    }
}

/// The node holds an outgoing reference to `t`.
pub open spec fn spec_node_mentions(n: Node, t: Id) -> bool {
    match n.data {
        NodeData::Dialog(dn) => dn.next_node == Some(t),
        NodeData::Choices(cs) => exists|i: int|
            0 <= i < cs.choices@.len() && (#[trigger] cs.choices@[i]).next_node == Some(t),
        NodeData::Phylum(p) => exists|i: int|
            0 <= i < p.branches@.len() && (#[trigger] p.branches@[i]).next_node == Some(t),
    }
}

/// Every variable the branch node requires is a known variable.
pub open spec fn spec_phylum_vars_ok(p: Phylum, vars: Seq<Id>) -> bool {
    forall|k: int| 0 <= k < phylum_vars(p).len() ==> vars.contains(#[trigger] phylum_vars(p)[k])
}

impl Dialog {
    /// Structural pass: every node-to-node reference resolves.
    pub open spec fn links_coherent(self) -> bool {
        forall|i: int|
            0 <= i < self.nodes@.len() ==> spec_node_links_ok(#[trigger] self.nodes@[i], self)
    }

    /// Variable pass: every variable required by a branch node is known.
    pub open spec fn vars_coherent(self, vars: Seq<Id>) -> bool {
        forall|i: int|
            0 <= i < self.phylums().len() ==> spec_phylum_vars_ok(#[trigger] self.phylums()[i], vars)
    }
}

/// A validation error names a violation actually present in the graph.
pub open spec fn spec_is_violation(d: Dialog, vars: Seq<Id>, e: CoherenceError) -> bool {
    match e {
        CoherenceError::DanglingReference { source_node, target_id } => {
            &&& !d.spec_has_node(target_id)
            &&& exists|i: int|
                0 <= i < d.nodes@.len() && (#[trigger] d.nodes@[i]).id == source_node
                    && spec_node_mentions(d.nodes@[i], target_id)
        },
        CoherenceError::UnknownVariable { branch_node, variable_id } => {
            &&& !vars.contains(variable_id)
            &&& exists|i: int|
                0 <= i < d.phylums().len() && (#[trigger] d.phylums()[i]).id == branch_node
                    && phylum_vars(d.phylums()[i]).contains(variable_id)
        },
        _ => false,
    }
}

/// Every branch node of a node sequence occurs in `phylums_of`, and
/// everything in `phylums_of` comes from some branch node.
pub proof fn lemma_phylums_of_membership(nodes: Seq<Node>)
    ensures
        forall|k: int|
            0 <= k < phylums_of(nodes).len() ==> exists|j: int|
                0 <= j < nodes.len() && nodes[j].data == NodeData::Phylum(
                    #[trigger] phylums_of(nodes)[k],
                ),
        forall|j: int|
            0 <= j < nodes.len() && (#[trigger] nodes[j]).data is Phylum ==> phylums_of(
                nodes,
            ).contains(nodes[j].data->Phylum_0),
    decreases nodes.len(),
{
    if nodes.len() > 0 {
        let rest = nodes.drop_last();
        lemma_phylums_of_membership(rest);
        assert forall|k: int| 0 <= k < phylums_of(nodes).len() implies exists|j: int|
            0 <= j < nodes.len() && nodes[j].data == NodeData::Phylum(
                #[trigger] phylums_of(nodes)[k],
            ) by {
            if k < phylums_of(rest).len() {
                let j = choose|j: int|
                    0 <= j < rest.len() && (#[trigger] rest[j]).data == NodeData::Phylum(
                        phylums_of(rest)[k],
                    );
                assert(phylums_of(nodes)[k] == phylums_of(rest)[k]);
                assert(nodes[j].data == NodeData::Phylum(phylums_of(nodes)[k]));
            } else {
                assert(nodes.last().data == NodeData::Phylum(phylums_of(nodes)[k]));
                assert(nodes[nodes.len() - 1].data == NodeData::Phylum(phylums_of(nodes)[k]));
            }
        }
        assert forall|j: int|
            0 <= j < nodes.len() && (#[trigger] nodes[j]).data is Phylum implies phylums_of(
            nodes,
        ).contains(nodes[j].data->Phylum_0) by {
            if j < nodes.len() - 1 {
                assert(rest[j] == nodes[j]);
                assert(phylums_of(rest).contains(nodes[j].data->Phylum_0));
                let k = choose|k: int|
                    0 <= k < phylums_of(rest).len() && phylums_of(rest)[k] == nodes[j]
                        .data->Phylum_0;
                assert(phylums_of(nodes)[k] == nodes[j].data->Phylum_0);
            } else {
                match nodes.last().data {
                    NodeData::Phylum(p) => {
                        assert(phylums_of(nodes).last() == p);
                    },
                    _ => {},
                }
            }
        }
    }
}

impl Dialog {
    /// Whether a node with the given id exists in the graph.
    pub fn has_node(&self, id: Id) -> (b: bool)
        ensures
            b == self.spec_has_node(id),
    {
        let mut i: usize = 0;
        while i < self.nodes.len()
            invariant
                i <= self.nodes.len(),
                forall|j: int| 0 <= j < i ==> (#[trigger] self.nodes@[j]).id != id,
            decreases self.nodes.len() - i,
        {
            if self.nodes[i].id == id {
                proof {
                    assert(self.node_ids()[i as int] == id);
                }
                return true;
            }
            i = i + 1;
        }
        proof {
            assert forall|j: int| 0 <= j < self.node_ids().len() implies self.node_ids()[j]
                != id by {
                assert(self.node_ids()[j] == self.nodes@[j].id);
            }
        }
        false
    }

    fn check_choices_links(&self, n_id: Id, cs: &Choices) -> (r: Result<(), CoherenceError>)
        ensures
            r is Ok <==> (forall|i: int|
                0 <= i < cs.choices@.len() ==> spec_choice_ok(#[trigger] cs.choices@[i], *self)),
            r matches Err(e) ==> (e matches CoherenceError::DanglingReference {
                source_node,
                target_id,
            } && source_node == n_id && !self.spec_has_node(target_id) && exists|i: int|
                0 <= i < cs.choices@.len() && (#[trigger] cs.choices@[i]).next_node == Some(
                    target_id,
                )),
    {
        let mut i: usize = 0;
        while i < cs.choices.len()
            invariant
                i <= cs.choices.len(),
                forall|j: int| 0 <= j < i ==> spec_choice_ok(#[trigger] cs.choices@[j], *self),
            decreases cs.choices.len() - i,
        {
            match cs.choices[i].next_node {
                Some(t) => {
                    if !self.has_node(t) {
                        return Err(
                            CoherenceError::DanglingReference { source_node: n_id, target_id: t },
                        );
                    }
                },
                None => {},
            }
            i = i + 1;
        }
        Ok(())
    }

    fn check_phylum_links(&self, n_id: Id, p: &Phylum) -> (r: Result<(), CoherenceError>)
        ensures
            r is Ok <==> (forall|i: int|
                0 <= i < p.branches@.len() ==> spec_cond_link_ok(#[trigger] p.branches@[i], *self)),
            r matches Err(e) ==> (e matches CoherenceError::DanglingReference {
                source_node,
                target_id,
            } && source_node == n_id && !self.spec_has_node(target_id) && exists|i: int|
                0 <= i < p.branches@.len() && (#[trigger] p.branches@[i]).next_node == Some(
                    target_id,
                )),
    {
        let mut i: usize = 0;
        while i < p.branches.len()
            invariant
                i <= p.branches.len(),
                forall|j: int| 0 <= j < i ==> spec_cond_link_ok(#[trigger] p.branches@[j], *self),
            decreases p.branches.len() - i,
        {
            match p.branches[i].next_node {
                Some(t) => {
                    if !self.has_node(t) {
                        return Err(
                            CoherenceError::DanglingReference { source_node: n_id, target_id: t },
                        );
                    }
                },
                None => {},
            }
            i = i + 1;
        }
        Ok(())
    }

    /// Structural check of one node: every outgoing reference must resolve.
    fn check_node_links(&self, n: &Node) -> (r: Result<(), CoherenceError>)
        ensures
            r is Ok <==> spec_node_links_ok(*n, *self),
            r matches Err(e) ==> (e matches CoherenceError::DanglingReference {
                source_node,
                target_id,
            } && source_node == n.id && spec_node_mentions(*n, target_id) && !self.spec_has_node(
                target_id,
            )),
    {
        match &n.data {
            NodeData::Dialog(dn) => {
                match dn.next_node {
                    Some(t) => {
                        if !self.has_node(t) {
                            return Err(
                                CoherenceError::DanglingReference {
                                    source_node: n.id,
                                    target_id: t,
                                },
                            );
                        }
                    },
                    None => {},
                }
                Ok(())
            },
            NodeData::Choices(cs) => self.check_choices_links(n.id, cs),
            NodeData::Phylum(p) => self.check_phylum_links(n.id, p),
        }
    }
}

/// If a condition of the sequence requires a variable, the whole sequence
/// requires it.
proof fn lemma_conds_vars_contains(cs: Seq<Conditions>, i: int, x: Id)
    requires
        0 <= i < cs.len(),
        cond_vars(cs[i]).contains(x),
    ensures
        conds_vars(cs).contains(x),
    decreases cs.len(),
{
    if i == cs.len() - 1 {
        let k = choose|k: int| 0 <= k < cond_vars(cs[i]).len() && cond_vars(cs[i])[k] == x;
        assert(conds_vars(cs)[conds_vars(cs.drop_last()).len() + k] == x);
    } else {
        assert(cs.drop_last()[i] == cs[i]);
        lemma_conds_vars_contains(cs.drop_last(), i, x);
        let k = choose|k: int|
            0 <= k < conds_vars(cs.drop_last()).len() && conds_vars(cs.drop_last())[k] == x;
        assert(conds_vars(cs)[k] == x);
    }
}

/// Variable check of one requirement tree against the known variables,
/// reporting the offending branch id on failure.
fn check_expr_vars(e: &NecessityExpression, vars: &Vec<Id>, branch: Id) -> (r: Result<
    (),
    CoherenceError,
>)
    ensures
        r is Ok <==> (forall|k: int|
            0 <= k < expr_vars(*e).len() ==> vars@.contains(#[trigger] expr_vars(*e)[k])),
        r matches Err(err) ==> (err matches CoherenceError::UnknownVariable {
            branch_node,
            variable_id,
        } && branch_node == branch && expr_vars(*e).contains(variable_id) && !vars@.contains(
            variable_id,
        )),
    decreases *e,
{
    match e {
        NecessityExpression::Var(v) => {
            if contains_id(vars, v.var_id) {
                Ok(())
            } else {
                proof {
                    assert(expr_vars(*e)[0] == v.var_id);
                }
                Err(CoherenceError::UnknownVariable { branch_node: branch, variable_id: v.var_id })
            }
        },
        NecessityExpression::Tree(t) => {
            let ghost rs = expr_vars(*t.right);
            let ghost ls = expr_vars(*t.left);
            match check_expr_vars(&t.right, vars, branch) {
                Ok(()) => {
                    match check_expr_vars(&t.left, vars, branch) {
                        Ok(()) => {
                            proof {
                                assert forall|k: int|
                                    0 <= k < expr_vars(*e).len() implies vars@.contains(
                                    #[trigger] expr_vars(*e)[k],
                                ) by {
                                    if k < rs.len() {
                                        assert(expr_vars(*e)[k] == rs[k]);
                                    } else {
                                        assert(expr_vars(*e)[k] == ls[k - rs.len()]);
                                    }
                                }
                            }
                            Ok(())
                        },
                        Err(err) => {
                            proof {
                                let v = err->UnknownVariable_variable_id;
                                let k = choose|k: int| 0 <= k < ls.len() && ls[k] == v;
                                assert(expr_vars(*e)[rs.len() + k] == v);
                            }
                            Err(err)
                        },
                    }
                },
                Err(err) => {
                    proof {
                        let v = err->UnknownVariable_variable_id;
                        let k = choose|k: int| 0 <= k < rs.len() && rs[k] == v;
                        assert(expr_vars(*e)[k] == v);
                    }
                    Err(err)
                },
            }
        },
    }
}

fn check_cond_vars(c: &Conditions, vars: &Vec<Id>, branch: Id) -> (r: Result<(), CoherenceError>)
    ensures
        r is Ok <==> (forall|k: int|
            0 <= k < cond_vars(*c).len() ==> vars@.contains(#[trigger] cond_vars(*c)[k])),
        r matches Err(err) ==> (err matches CoherenceError::UnknownVariable {
            branch_node,
            variable_id,
        } && branch_node == branch && cond_vars(*c).contains(variable_id) && !vars@.contains(
            variable_id,
        )),
{
    match &c.necessities {
        Some(e) => {
            proof {
                assert(cond_vars(*c) == expr_vars(*e));
            }
            check_expr_vars(e, vars, branch)
        },
        None => Ok(()),
    }
}

/// Variable check of one branch node against the known variables.
fn check_phylum_vars(p: &Phylum, vars: &Vec<Id>) -> (r: Result<(), CoherenceError>)
    ensures
        r is Ok <==> spec_phylum_vars_ok(*p, vars@),
        r matches Err(e) ==> (e matches CoherenceError::UnknownVariable {
            branch_node,
            variable_id,
        } && branch_node == p.id && phylum_vars(*p).contains(variable_id) && !vars@.contains(
            variable_id,
        )),
{
    let mut i: usize = 0;
    while i < p.branches.len()
        invariant
            i <= p.branches.len(),
            forall|k: int|
                0 <= k < conds_vars(p.branches@.take(i as int)).len() ==> vars@.contains(
                    #[trigger] conds_vars(p.branches@.take(i as int))[k],
                ),
        decreases p.branches.len() - i,
    {
        let ghost pre = conds_vars(p.branches@.take(i as int));
        match check_cond_vars(&p.branches[i], vars, p.id) {
            Ok(()) => {
                proof {
                    let next = p.branches@.take(i + 1);
                    assert(next.drop_last() =~= p.branches@.take(i as int));
                    assert(next.last() == p.branches@[i as int]);
                    assert(conds_vars(next) == pre + cond_vars(p.branches@[i as int]));
                    assert forall|k: int| 0 <= k < conds_vars(next).len() implies vars@.contains(
                        #[trigger] conds_vars(next)[k],
                    ) by {
                        if k < pre.len() {
                            assert(conds_vars(next)[k] == pre[k]);
                        } else {
                            assert(conds_vars(next)[k] == cond_vars(p.branches@[i as int])[k
                                - pre.len()]);
                        }
                    }
                }
            },
            Err(e) => {
                proof {
                    let v = e->UnknownVariable_variable_id;
                    lemma_conds_vars_contains(p.branches@, i as int, v);
                    let k = choose|k: int|
                        0 <= k < phylum_vars(*p).len() && phylum_vars(*p)[k] == v;
                    assert(!spec_phylum_vars_ok(*p, vars@));
                }
                return Err(e);
            },
        }
        i = i + 1;
    }
    proof {
        assert(p.branches@.take(p.branches@.len() as int) =~= p.branches@);
    }
    Ok(())
}

impl Dialog {
    /// The save-time validator: both the structural pass (every node-to-node
    /// reference resolves) and the variable pass (every variable required by
    /// a branch node is among `vars`) must succeed.  On failure the error
    /// names a violation actually present in the graph, and nothing is
    /// persisted by callers.
    pub fn enforce_links_coherence(&self, vars: &Vec<Id>) -> (r: Result<(), CoherenceError>)
        ensures
            r is Ok <==> self.links_coherent() && self.vars_coherent(vars@),
            r matches Err(e) ==> spec_is_violation(*self, vars@, e),
    {
        let mut i: usize = 0;
        while i < self.nodes.len()
            invariant
                i <= self.nodes.len(),
                forall|j: int| 0 <= j < i ==> spec_node_links_ok(#[trigger] self.nodes@[j], *self),
                forall|j: int|
                    0 <= j < i && (#[trigger] self.nodes@[j]).data is Phylum
                        ==> spec_phylum_vars_ok(self.nodes@[j].data->Phylum_0, vars@),
            decreases self.nodes.len() - i,
        {
            let n = &self.nodes[i];
            match self.check_node_links(n) {
                Ok(()) => {},
                Err(e) => {
                    proof {
                        assert(self.nodes@[i as int].id == n.id && spec_node_mentions(
                            self.nodes@[i as int],
                            e->DanglingReference_target_id,
                        ));
                    }
                    return Err(e);
                },
            }
            match &n.data {
                NodeData::Phylum(p) => {
                    match check_phylum_vars(p, vars) {
                        Ok(()) => {},
                        Err(e) => {
                            proof {
                                lemma_phylums_of_membership(self.nodes@);
                                assert(self.phylums().contains(*p));
                                let k = choose|k: int|
                                    0 <= k < self.phylums().len() && self.phylums()[k] == *p;
                                assert(self.phylums()[k].id == p.id && phylum_vars(
                                    self.phylums()[k],
                                ).contains(e->UnknownVariable_variable_id));
                            }
                            return Err(e);
                        },
                    }
                },
                _ => {},
            }
            i = i + 1;
        }
        proof {
            lemma_phylums_of_membership(self.nodes@);
            assert forall|k: int| 0 <= k < self.phylums().len() implies spec_phylum_vars_ok(
                #[trigger] self.phylums()[k],
                vars@,
            ) by {
                let j = choose|j: int|
                    0 <= j < self.nodes@.len() && (#[trigger] self.nodes@[j]).data
                        == NodeData::Phylum(self.phylums()[k]);
                assert(self.nodes@[j].data is Phylum);
                assert(self.nodes@[j].data->Phylum_0 == self.phylums()[k]);
            }
        }
        Ok(())
    }
}

// ---------------------------------------------------------------------------
// Collecting the variables a branch node references
// ---------------------------------------------------------------------------

impl NecessityExpression {
    /// Appends every variable this requirement tree references, rightmost
    /// subtree first.
    pub fn add_var_to_list(&self, list: &mut Vec<Id>)
        ensures
            final(list)@ == old(list)@ + expr_vars(*self),
        decreases *self,
    {
        match self {
            NecessityExpression::Var(v) => {
                list.push(v.var_id);
                proof {
                    assert(list@ =~= old(list)@ + expr_vars(*self));
                }
            },
            NecessityExpression::Tree(t) => {
                t.right.add_var_to_list(list);
                t.left.add_var_to_list(list);
                proof {
                    assert(list@ =~= old(list)@ + expr_vars(*self));
                }
            },
        }
    }
}

impl Conditions {
    /// Appends every variable this condition's requirement references.
    pub fn add_var_to_list(&self, list: &mut Vec<Id>)
        ensures
            final(list)@ == old(list)@ + cond_vars(*self),
    {
        match &self.necessities {
            Some(n) => {
                proof {
                    assert(cond_vars(*self) == expr_vars(*n));
                }
                n.add_var_to_list(list);
            },
            None => {
                proof {
                    assert(list@ =~= list@ + cond_vars(*self));
                }
            },
        }
    }
}

impl Phylum {
    /// Every variable referenced by this branch node's conditions, in
    /// collection order (duplicates kept).
    pub fn get_variables(&self) -> (r: Vec<Id>)
        ensures
            r@ == phylum_vars(*self),
    {
        let mut res: Vec<Id> = Vec::new();
        let mut i: usize = 0;
        while i < self.branches.len()
            invariant
                i <= self.branches.len(),
                res@ == conds_vars(self.branches@.take(i as int)),
            decreases self.branches.len() - i,
        {
            self.branches[i].add_var_to_list(&mut res);
            proof {
                let next = self.branches@.take(i + 1);
                assert(next.drop_last() =~= self.branches@.take(i as int));
                assert(next.last() == self.branches@[i as int]);
            }
            i = i + 1;
        }
        proof {
            assert(self.branches@.take(self.branches@.len() as int) =~= self.branches@);
        }
        res
    }
}

// ---------------------------------------------------------------------------
// Structural diff between two versions of a graph
// ---------------------------------------------------------------------------

/// The branch nodes of `ps` whose id does not occur in `other`, in order.
pub open spec fn diff_absent(ps: Seq<Phylum>, other: Seq<Phylum>) -> Seq<Phylum>
    decreases ps.len(),
{
    if ps.len() == 0 {
        Seq::empty()
    } else {
        let rest = diff_absent(ps.drop_last(), other);
        if phylum_ids(other).contains(ps.last().id) {
            rest
        } else {
            rest.push(ps.last())
        }
    }
}

fn phylums_contain_id(ps: &Vec<&Phylum>, id: Id) -> (b: bool)
    ensures
        b == phylum_ids(deref_phylums(ps@)).contains(id),
{
    let mut i: usize = 0;
    while i < ps.len()
        invariant
            i <= ps.len(),
            forall|j: int| 0 <= j < i ==> (*(#[trigger] ps@[j])).id != id,
        decreases ps.len() - i,
    {
        if ps[i].id == id {
            proof {
                assert(phylum_ids(deref_phylums(ps@))[i as int] == id);
            }
            return true;
        }
        i = i + 1;
    }
    proof {
        assert forall|j: int| 0 <= j < phylum_ids(deref_phylums(ps@)).len() implies phylum_ids(
            deref_phylums(ps@),
        )[j] != id by {
            assert(phylum_ids(deref_phylums(ps@))[j] == ps@[j].id);
        }
    }
    false
}

impl Dialog {
    /// The branch nodes of this graph, in node order, borrowed from the
    /// graph itself.
    pub fn get_phylums_map<'a>(&'a self) -> (r: Vec<&'a Phylum>)
        ensures
            deref_phylums(r@) == self.phylums(),
    {
        let mut res: Vec<&Phylum> = Vec::new();
        let mut i: usize = 0;
        while i < self.nodes.len()
            invariant
                i <= self.nodes.len(),
                deref_phylums(res@) =~= phylums_of(self.nodes@.take(i as int)),
            decreases self.nodes.len() - i,
        {
            match &self.nodes[i].data {
                NodeData::Phylum(p) => {
                    res.push(p);
                },
                _ => {},
            }
            proof {
                let next = self.nodes@.take(i + 1);
                assert(next.drop_last() =~= self.nodes@.take(i as int));
                assert(next.last() == self.nodes@[i as int]);
                assert(deref_phylums(res@) =~= phylums_of(next));
            }
            i = i + 1;
        }
        proof {
            assert(self.nodes@.take(self.nodes@.len() as int) =~= self.nodes@);
            assert(deref_phylums(res@) =~= self.phylums());
        }
        res
    }

    /// The structural diff against the previously stored version of the same
    /// dialogue: branch nodes added in this version and branch nodes deleted
    /// from the previous one.  Membership is by id alone, so a branch edited
    /// in place under an unchanged id is neither added nor deleted.
    pub fn get_diffs<'a>(&'a self, prev: &'a Dialog) -> (d: PhylumDiff<'a>)
        ensures
            deref_phylums(d.added@) == diff_absent(self.phylums(), prev.phylums()),
            deref_phylums(d.deleted@) == diff_absent(prev.phylums(), self.phylums()),
    {
        let currents = self.get_phylums_map();
        let previous = prev.get_phylums_map();
        let mut added: Vec<&Phylum> = Vec::new();
        let mut deleted: Vec<&Phylum> = Vec::new();

        let mut i: usize = 0;
        while i < currents.len()
            invariant
                i <= currents.len(),
                deref_phylums(currents@) == self.phylums(),
                deref_phylums(previous@) == prev.phylums(),
                deref_phylums(added@) =~= diff_absent(
                    deref_phylums(currents@).take(i as int),
                    prev.phylums(),
                ),
            decreases currents.len() - i,
        {
            if !phylums_contain_id(&previous, currents[i].id) {
                added.push(currents[i]);
            }
            proof {
                let next = deref_phylums(currents@).take(i + 1);
                assert(next.drop_last() =~= deref_phylums(currents@).take(i as int));
                assert(next.last() == deref_phylums(currents@)[i as int]);
                assert(deref_phylums(currents@)[i as int] == *currents@[i as int]);
                assert(deref_phylums(added@) =~= diff_absent(next, prev.phylums()));
            }
            i = i + 1;
        }

        proof {
            assert(deref_phylums(currents@).take(currents@.len() as int) =~= deref_phylums(
                currents@,
            ));
        }
        let mut j: usize = 0;
        while j < previous.len()
            invariant
                j <= previous.len(),
                deref_phylums(currents@) == self.phylums(),
                deref_phylums(previous@) == prev.phylums(),
                deref_phylums(added@) == diff_absent(self.phylums(), prev.phylums()),
                deref_phylums(deleted@) =~= diff_absent(
                    deref_phylums(previous@).take(j as int),
                    self.phylums(),
                ),
            decreases previous.len() - j,
        {
            if !phylums_contain_id(&currents, previous[j].id) {
                deleted.push(previous[j]);
            }
            proof {
                let next = deref_phylums(previous@).take(j + 1);
                assert(next.drop_last() =~= deref_phylums(previous@).take(j as int));
                assert(next.last() == deref_phylums(previous@)[j as int]);
                assert(deref_phylums(previous@)[j as int] == *previous@[j as int]);
                assert(deref_phylums(deleted@) =~= diff_absent(next, self.phylums()));
            }
            j = j + 1;
        }

        proof {
            assert(deref_phylums(currents@).take(currents@.len() as int) =~= self.phylums());
            assert(deref_phylums(previous@).take(previous@.len() as int) =~= prev.phylums());
        }
        PhylumDiff { added, deleted }
    }
}

// ---------------------------------------------------------------------------
// Externalizing and hydrating text payloads
// ---------------------------------------------------------------------------

/// What externalization does to one node: a spoken line holding inline,
/// non-empty text loses the text and gains a link addressed by the node's
/// own id; every other node is untouched.
pub open spec fn spec_externalized_node(n: Node) -> Node {
    match n.data {
        NodeData::Dialog(dn) => match dn.content {
            Some(t) => if t@.len() > 0 {
                Node {
                    id: n.id,
                    pos_x: n.pos_x,
                    pos_y: n.pos_y,
                    data: NodeData::Dialog(
                        DialogNode {
                            next_node: dn.next_node,
                            character_id: dn.character_id,
                            content_link: Some(n.id),
                            content: None,
                        },
                    ),
                }
            } else {
                n
            },
            None => n,
        },
        _ => n,
    }
}

/// The blob one node contributes to the externalized payloads, if any.
pub open spec fn spec_node_blob(n: Node) -> Option<DialogContent> {
    match n.data {
        NodeData::Dialog(dn) => match dn.content {
            Some(t) => if t@.len() > 0 {
                Some(DialogContent { content: t, node_id: n.id })
            } else {
                None
            },
            None => None,
        },
        _ => None,
    }
}

/// The blobs of a node sequence, in node order.
pub open spec fn spec_blobs_of(nodes: Seq<Node>) -> Seq<DialogContent>
    decreases nodes.len(),
{
    if nodes.len() == 0 {
        Seq::empty()
    } else {
        let rest = spec_blobs_of(nodes.drop_last());
        match spec_node_blob(nodes.last()) {
            Some(b) => rest.push(b),
            None => rest,
        }
    }
}

impl Dialog {
    /// Externalizes the graph in place: every spoken line holding inline,
    /// non-empty text is rewritten to reference an external blob, and each
    /// moved text is appended to `collector` for the storage layer to
    /// persist.  Empty or absent text produces no blob, and externalizing an
    /// already externalized node changes nothing.
    pub fn collect_content(&mut self, collector: &mut Vec<DialogContent>)
        ensures
            final(self).nodes@ == old(self).nodes@.map_values(
                |n: Node| spec_externalized_node(n),
            ),
            final(self).id == old(self).id,
            final(self).name == old(self).name,
            final(self).root_node == old(self).root_node,
            final(self).characters_ids == old(self).characters_ids,
            final(self).created_at == old(self).created_at,
            final(self).main_character == old(self).main_character,
            final(collector)@ == old(collector)@ + spec_blobs_of(old(self).nodes@),
    {
        let mut i: usize = 0;
        while i < self.nodes.len()
            invariant
                i <= self.nodes.len(),
                self.nodes@.len() == old(self).nodes@.len(),
                forall|j: int|
                    i <= j < self.nodes@.len() ==> self.nodes@[j] == old(self).nodes@[j],
                forall|j: int|
                    0 <= j < i ==> self.nodes@[j] == spec_externalized_node(old(self).nodes@[j]),
                collector@ == old(collector)@ + spec_blobs_of(old(self).nodes@.take(i as int)),
                self.id == old(self).id,
                self.name == old(self).name,
                self.root_node == old(self).root_node,
                self.characters_ids == old(self).characters_ids,
                self.created_at == old(self).created_at,
                self.main_character == old(self).main_character,
            decreases self.nodes.len() - i,
        {
            let node_id = self.nodes[i].id;
            let mut replacement: Option<(DialogNode, String)> = None;
            match &self.nodes[i].data {
                NodeData::Dialog(dn) => {
                    match &dn.content {
                        Some(t) => {
                            if !t.as_str().is_empty() {
                                replacement = Some(
                                    (
                                        DialogNode {
                                            next_node: dn.next_node,
                                            character_id: dn.character_id,
                                            content_link: Some(node_id),
                                            content: None,
                                        },
                                        t.clone(),
                                    ),
                                );
                            }
                        },
                        None => {},
                    }
                },
                _ => {},
            }
            match replacement {
                Some((dn, text)) => {
                    let px = self.nodes[i].pos_x;
                    let py = self.nodes[i].pos_y;
                    self.nodes[i] = Node {
                        id: node_id,
                        pos_x: px,
                        pos_y: py,
                        data: NodeData::Dialog(dn),
                    };
                    collector.push(DialogContent { content: text, node_id });
                },
                None => {},
            }
            proof {
                let prev_nodes = old(self).nodes@.take(i as int);
                let next = old(self).nodes@.take(i + 1);
                assert(next.drop_last() =~= prev_nodes);
                assert(next.last() == old(self).nodes@[i as int]);
                assert(self.nodes@[i as int] == spec_externalized_node(old(self).nodes@[i as int]));
                assert(collector@ =~= old(collector)@ + spec_blobs_of(next));
            }
            i = i + 1;
        }
        proof {
            assert(old(self).nodes@.take(old(self).nodes@.len() as int) =~= old(self).nodes@);
            assert(self.nodes@ =~= old(self).nodes@.map_values(
                |n: Node| spec_externalized_node(n),
            ));
        }
    }
}

/// The text stored for the given node id, if any: the first blob whose
/// address matches.
pub open spec fn spec_blob_for(blobs: Seq<DialogContent>, id: Id) -> Option<String>
    decreases blobs.len(),
{
    if blobs.len() == 0 {
        None
    } else if blobs[0].node_id == id {
        Some(blobs[0].content)
    } else {
        spec_blob_for(blobs.drop_first(), id)
    }
}

fn find_blob(blobs: &Vec<DialogContent>, id: Id) -> (r: Option<String>)
    ensures
        r == spec_blob_for(blobs@, id),
{
    proof {
        assert(blobs@.skip(0) =~= blobs@);
    }
    let mut j: usize = 0;
    while j < blobs.len()
        invariant
            j <= blobs.len(),
            spec_blob_for(blobs@, id) == spec_blob_for(blobs@.skip(j as int), id),
        decreases blobs.len() - j,
    {
        proof {
            assert(blobs@.skip(j as int)[0] == blobs@[j as int]);
            assert(blobs@.skip(j as int).drop_first() =~= blobs@.skip(j + 1));
        }
        if blobs[j].node_id == id {
            return Some(blobs[j].content.clone());
        }
        j = j + 1;
    }
    proof {
        assert(blobs@.skip(blobs@.len() as int) =~= Seq::<DialogContent>::empty());
    }
    None
}

/// What hydration does to one node: a spoken line holding a content link
/// whose blob exists gets the text back inline (the link is kept, since the
/// hydrated snapshot is never persisted); every other node is untouched.
pub open spec fn spec_hydrated_node(n: Node, blobs: Seq<DialogContent>) -> Node {
    match n.data {
        NodeData::Dialog(dn) => match dn.content_link {
            Some(l) => match spec_blob_for(blobs, l) {
                Some(t) => Node {
                    id: n.id,
                    pos_x: n.pos_x,
                    pos_y: n.pos_y,
                    data: NodeData::Dialog(
                        DialogNode {
                            next_node: dn.next_node,
                            character_id: dn.character_id,
                            content_link: dn.content_link,
                            content: Some(t),
                        },
                    ),
                },
                None => n,
            },
            None => n,
        },
        _ => n,
    }
}

/// Every content link of the node sequence has a blob.
pub open spec fn spec_links_resolved(nodes: Seq<Node>, blobs: Seq<DialogContent>) -> bool {
    forall|i: int|
        0 <= i < nodes.len() ==> match (#[trigger] nodes[i]).data {
            NodeData::Dialog(dn) => dn.content_link matches Some(l) ==> spec_blob_for(
                blobs,
                l,
            ) is Some,
            _ => true,
        }
}

impl Dialog {
    /// Hydrates the graph in place from the given blobs: every spoken line
    /// holding a content link gets its text back inline.  Fails, leaving the
    /// graph untouched, exactly when some link has no blob; the error names
    /// that node and the missing blob address.
    pub fn hydrate_content(&mut self, blobs: &Vec<DialogContent>) -> (r: Result<
        (),
        CoherenceError,
    >)
        ensures
            r is Ok <==> spec_links_resolved(old(self).nodes@, blobs@),
            r is Ok ==> final(self).nodes@ == old(self).nodes@.map_values(
                |n: Node| spec_hydrated_node(n, blobs@),
            ),
            r is Err ==> *final(self) == *old(self),
            final(self).id == old(self).id,
            final(self).name == old(self).name,
            final(self).root_node == old(self).root_node,
            final(self).characters_ids == old(self).characters_ids,
            final(self).created_at == old(self).created_at,
            final(self).main_character == old(self).main_character,
            r matches Err(e) ==> (e matches CoherenceError::ContentMissing {
                node_id,
                content_id,
            } && spec_blob_for(blobs@, content_id) is None && exists|i: int|
                0 <= i < old(self).nodes@.len() && (#[trigger] old(self).nodes@[i]).id == node_id
                    && (old(self).nodes@[i].data matches NodeData::Dialog(dn) && dn.content_link
                    == Some(content_id))),
    {
        let mut i: usize = 0;
        while i < self.nodes.len()
            invariant
                i <= self.nodes.len(),
                *self == *old(self),
                forall|j: int|
                    0 <= j < i ==> match (#[trigger] self.nodes@[j]).data {
                        NodeData::Dialog(dn) => dn.content_link matches Some(l) ==> spec_blob_for(
                            blobs@,
                            l,
                        ) is Some,
                        _ => true,
                    },
            decreases self.nodes.len() - i,
        {
            match &self.nodes[i].data {
                NodeData::Dialog(dn) => {
                    match dn.content_link {
                        Some(l) => {
                            if find_blob(blobs, l).is_none() {
                                return Err(
                                    CoherenceError::ContentMissing {
                                        node_id: self.nodes[i].id,
                                        content_id: l,
                                    },
                                );
                            }
                        },
                        None => {},
                    }
                },
                _ => {},
            }
            i = i + 1;
        }

        let mut k: usize = 0;
        while k < self.nodes.len()
            invariant
                k <= self.nodes.len(),
                self.nodes@.len() == old(self).nodes@.len(),
                forall|j: int|
                    k <= j < self.nodes@.len() ==> self.nodes@[j] == old(self).nodes@[j],
                forall|j: int|
                    0 <= j < k ==> self.nodes@[j] == spec_hydrated_node(
                        old(self).nodes@[j],
                        blobs@,
                    ),
                self.id == old(self).id,
                self.name == old(self).name,
                self.root_node == old(self).root_node,
                self.characters_ids == old(self).characters_ids,
                self.created_at == old(self).created_at,
                self.main_character == old(self).main_character,
            decreases self.nodes.len() - k,
        {
            let node_id = self.nodes[k].id;
            let mut replacement: Option<DialogNode> = None;
            match &self.nodes[k].data {
                NodeData::Dialog(dn) => {
                    match dn.content_link {
                        Some(l) => {
                            match find_blob(blobs, l) {
                                Some(t) => {
                                    replacement = Some(
                                        DialogNode {
                                            next_node: dn.next_node,
                                            character_id: dn.character_id,
                                            content_link: dn.content_link,
                                            content: Some(t),
                                        },
                                    );
                                },
                                None => {},
                            }
                        },
                        None => {},
                    }
                },
                _ => {},
            }
            match replacement {
                Some(dn) => {
                    let px = self.nodes[k].pos_x;
                    let py = self.nodes[k].pos_y;
                    self.nodes[k] = Node {
                        id: node_id,
                        pos_x: px,
                        pos_y: py,
                        data: NodeData::Dialog(dn),
                    };
                },
                None => {},
            }
            proof {
                assert(self.nodes@[k as int] == spec_hydrated_node(
                    old(self).nodes@[k as int],
                    blobs@,
                ));
            }
            k = k + 1;
        }
        proof {
            assert(self.nodes@ =~= old(self).nodes@.map_values(
                |n: Node| spec_hydrated_node(n, blobs@),
            ));
        }
        Ok(())
    }
}

// ---------------------------------------------------------------------------
// Laws of validation and externalization
// ---------------------------------------------------------------------------

/// No dangling references survive validation: in a graph whose structural
/// pass succeeds, every outgoing reference held by any node — a spoken
/// line's next node, a choice's target or a condition's target — resolves
/// to a node of the same graph.
pub proof fn lemma_no_dangling_after_validate(d: Dialog)
    requires
        d.links_coherent(),
    ensures
        forall|i: int, t: Id|
            0 <= i < d.nodes@.len() && #[trigger] spec_node_mentions(d.nodes@[i], t)
                ==> d.spec_has_node(t),
{
    assert forall|i: int, t: Id|
        0 <= i < d.nodes@.len() && #[trigger] spec_node_mentions(d.nodes@[i], t) implies d
        .spec_has_node(t) by {
        let n = d.nodes@[i];
        assert(spec_node_links_ok(n, d));
        match n.data {
            NodeData::Dialog(dn) => {},
            NodeData::Choices(cs) => {
                let j = choose|j: int|
                    0 <= j < cs.choices@.len() && (#[trigger] cs.choices@[j]).next_node == Some(
                        t,
                    );
                assert(spec_choice_ok(cs.choices@[j], d));
            },
            NodeData::Phylum(p) => {
                let j = choose|j: int|
                    0 <= j < p.branches@.len() && (#[trigger] p.branches@[j]).next_node == Some(
                        t,
                    );
                assert(spec_cond_link_ok(p.branches@[j], d));
            },
        }
    }
}

/// The inline text a node carries, if it is a spoken line.
pub open spec fn spec_text_of(n: Node) -> Option<String> {
    match n.data {
        NodeData::Dialog(dn) => dn.content,
        _ => None,
    }
}

proof fn lemma_blob_for_push(bs: Seq<DialogContent>, e: DialogContent, id: Id)
    ensures
        spec_blob_for(bs.push(e), id) == (if spec_blob_for(bs, id) is Some {
            spec_blob_for(bs, id)
        } else if e.node_id == id {
            Some(e.content)
        } else {
            None::<String>
        }),
    decreases bs.len(),
{
    if bs.len() == 0 {
        assert(bs.push(e)[0] == e);
        assert(bs.push(e).drop_first() =~= Seq::<DialogContent>::empty());
        assert(spec_blob_for(bs, id) is None);
        if e.node_id != id {
            assert(spec_blob_for(bs.push(e), id) == spec_blob_for(
                bs.push(e).drop_first(),
                id,
            ));
            assert(spec_blob_for(Seq::<DialogContent>::empty(), id) is None);
        }
    } else {
        assert(bs.push(e)[0] == bs[0]);
        assert(bs.push(e).drop_first() =~= bs.drop_first().push(e));
        lemma_blob_for_push(bs.drop_first(), e, id);
    }
}

proof fn lemma_blobs_of_absent(nodes: Seq<Node>, id: Id)
    requires
        forall|j: int| 0 <= j < nodes.len() ==> (#[trigger] nodes[j]).id != id,
    ensures
        spec_blob_for(spec_blobs_of(nodes), id) is None,
    decreases nodes.len(),
{
    if nodes.len() > 0 {
        assert forall|j: int| 0 <= j < nodes.drop_last().len() implies (#[trigger] nodes.drop_last()[j]).id
            != id by {
            assert(nodes.drop_last()[j] == nodes[j]);
        }
        lemma_blobs_of_absent(nodes.drop_last(), id);
        match spec_node_blob(nodes.last()) {
            Some(b) => {
                assert(nodes[nodes.len() - 1].id != id);
                assert(b.node_id == nodes.last().id);
                lemma_blob_for_push(spec_blobs_of(nodes.drop_last()), b, id);
            },
            None => {},
        }
    }
}

proof fn lemma_blobs_of_lookup(nodes: Seq<Node>, i: int, b: DialogContent)
    requires
        unique_seq(nodes.map_values(|n: Node| n.id)),
        0 <= i < nodes.len(),
        spec_node_blob(nodes[i]) == Some(b),
    ensures
        spec_blob_for(spec_blobs_of(nodes), nodes[i].id) == Some(b.content),
    decreases nodes.len(),
{
    let ids = nodes.map_values(|n: Node| n.id);
    if i == nodes.len() - 1 {
        assert forall|j: int| 0 <= j < nodes.drop_last().len() implies (#[trigger] nodes.drop_last()[j]).id
            != nodes[i].id by {
            assert(nodes.drop_last()[j] == nodes[j]);
            assert(ids[j] != ids[i]);
        }
        lemma_blobs_of_absent(nodes.drop_last(), nodes[i].id);
        assert(b.node_id == nodes[i].id);
        lemma_blob_for_push(spec_blobs_of(nodes.drop_last()), b, nodes[i].id);
    } else {
        let pids = nodes.drop_last().map_values(|n: Node| n.id);
        assert forall|j1: int, j2: int|
            0 <= j1 < j2 < pids.len() implies #[trigger] pids[j1] != #[trigger] pids[j2] by {
            assert(nodes.drop_last()[j1] == nodes[j1]);
            assert(nodes.drop_last()[j2] == nodes[j2]);
            assert(ids[j1] != ids[j2]);
        }
        assert(unique_seq(pids));
        assert(nodes.drop_last()[i] == nodes[i]);
        lemma_blobs_of_lookup(nodes.drop_last(), i, b);
        match spec_node_blob(nodes.last()) {
            Some(bl) => {
                lemma_blob_for_push(spec_blobs_of(nodes.drop_last()), bl, nodes[i].id);
            },
            None => {},
        }
    }
}

/// Content round trip: externalizing a graph whose spoken lines are fully
/// inline, then hydrating the result from the produced blobs, restores
/// every node's text; and in the externalized graph no node whose text was
/// moved out still holds inline text — it holds only the link, addressed by
/// the node's own id.
pub proof fn lemma_content_round_trip(d: Dialog)
    requires
        unique_seq(d.node_ids()),
        forall|i: int|
            0 <= i < d.nodes@.len() ==> ((#[trigger] d.nodes@[i]).data matches NodeData::Dialog(dn)
                ==> dn.content_link is None),
    ensures
        spec_links_resolved(
            d.nodes@.map_values(|n: Node| spec_externalized_node(n)),
            spec_blobs_of(d.nodes@),
        ),
        forall|i: int|
            0 <= i < d.nodes@.len() ==> spec_text_of(
                spec_hydrated_node(
                    spec_externalized_node(#[trigger] d.nodes@[i]),
                    spec_blobs_of(d.nodes@),
                ),
            ) == spec_text_of(d.nodes@[i]),
        forall|i: int|
            0 <= i < d.nodes@.len() ==> (spec_node_blob(#[trigger] d.nodes@[i]) is Some ==> (
            spec_externalized_node(d.nodes@[i]).data matches NodeData::Dialog(dn) && dn.content
                is None && dn.content_link == Some(d.nodes@[i].id))),
{
    let ext = d.nodes@.map_values(|n: Node| spec_externalized_node(n));
    let blobs = spec_blobs_of(d.nodes@);
    assert forall|i: int| 0 <= i < d.nodes@.len() implies spec_text_of(
        spec_hydrated_node(spec_externalized_node(#[trigger] d.nodes@[i]), blobs),
    ) == spec_text_of(d.nodes@[i]) by {
        let n = d.nodes@[i];
        match n.data {
            NodeData::Dialog(dn) => {
                match dn.content {
                    Some(t) => {
                        if t@.len() > 0 {
                            let b = DialogContent { content: t, node_id: n.id };
                            assert(spec_node_blob(n) == Some(b));
                            lemma_blobs_of_lookup(d.nodes@, i, b);
                            assert(spec_blob_for(blobs, n.id) == Some(t));
                        } else {
                            assert(dn.content_link is None);
                        }
                    },
                    None => {
                        assert(dn.content_link is None);
                    },
                }
            },
            _ => {},
        }
    }
    assert forall|i: int| 0 <= i < ext.len() implies (match (#[trigger] ext[i]).data {
        NodeData::Dialog(dn) => dn.content_link matches Some(l) ==> spec_blob_for(
            blobs,
            l,
        ) is Some,
        _ => true,
    }) by {
        let n = d.nodes@[i];
        assert(ext[i] == spec_externalized_node(n));
        match n.data {
            NodeData::Dialog(dn) => {
                match dn.content {
                    Some(t) => {
                        if t@.len() > 0 {
                            let b = DialogContent { content: t, node_id: n.id };
                            assert(spec_node_blob(n) == Some(b));
                            lemma_blobs_of_lookup(d.nodes@, i, b);
                            assert(spec_blob_for(blobs, n.id) == Some(t));
                        } else {
                            assert(dn.content_link is None);
                        }
                    },
                    None => {
                        assert(dn.content_link is None);
                    },
                }
            },
            _ => {},
        }
    }
}

} // verus!
