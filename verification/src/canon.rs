//! Labels for blank nodes that do not depend on how a graph names them.
//!
//! A blank node gets the digest of what is stated of it. One that is
//! only ever an object is a terminal. One that states something of
//! terms other than blank nodes is a root, and its label is the digest
//! of those statements. The labels then spread: a blank node all of
//! whose blank objects have labels gets the digest of its statements
//! about them, told with their labels.

use vstd::prelude::*;
use vstd::string::*;
use vstd::std_specs::hash::DefaultHasherAdditionalSpecFns;
use std::collections::hash_map::DefaultHasher;
use std::hash::Hasher;
use itertools::Itertools;
use crate::iri::{iri_display, BlankNode};
use crate::object::{object_display, Object, ObjectModel};
use crate::subject::{same_subject, Subject, SubjectModel};
use crate::triple::{models, Triple, TripleModel, Triples};

verus! {

/// Labels for blank nodes, by the labels that a graph gave them.
pub type Labels = Map<Seq<char>, Seq<char>>;

/// The hexadecimal digits of `n`, in lower case.
pub open spec fn hexadecimal(n: nat) -> Seq<char>
    decreases n,
{
    let d = n % 16;
    let ch = if d < 10 {
        ('0' as int + d) as char
    } else {
        ('a' as int + d - 10) as char
    };
    if n < 16 {
        seq![ch]
    } else {
        hexadecimal(n / 16).push(ch)
    }
}

/// What the hasher is fed for `parts`: each part's bytes, then a byte
/// that ends the part.
pub open spec fn writes(parts: Seq<Seq<char>>) -> Seq<Seq<u8>>
    decreases parts.len(),
{
    if parts.len() == 0 {
        Seq::empty()
    } else {
        writes(parts.drop_last()).push(vstd::utf8::encode_utf8(parts.last())).push(seq![0xffu8])
    }
}

/// The digest of `parts`: the standard hasher's result for them, in
/// hexadecimal.
pub open spec fn digest_of(parts: Seq<Seq<char>>) -> Seq<char> {
    hexadecimal(DefaultHasher::spec_finish(writes(parts)) as nat)
}

/// The label of a subject that is a blank node.
pub open spec fn subject_label(s: SubjectModel) -> Option<Seq<char>> {
    match s {
        SubjectModel::BlankNode(b) => Some(b),
        SubjectModel::Iri(_) => None,
    }
}

/// The label of an object that is a blank node.
pub open spec fn object_label(o: ObjectModel) -> Option<Seq<char>> {
    match o {
        ObjectModel::BlankNode(b) => Some(b),
        _ => None,
    }
}

/// Whether the blank node `label` is the subject of a triple of `ts`.
pub open spec fn is_subject(ts: Seq<TripleModel>, label: Seq<char>) -> bool {
    exists|i: int| 0 <= i < ts.len() && #[trigger] ts[i].subject == SubjectModel::BlankNode(label)
}

/// The text of the label of terminals.
pub open spec fn terminal() -> Seq<char> {
    "terminal"@
}

/// The labels of the terminals among the first `upto` triples: the
/// blank objects that are no triple's subject.
pub open spec fn terminals(ts: Seq<TripleModel>, upto: int) -> Labels
    decreases upto,
{
    if upto <= 0 {
        Map::empty()
    } else {
        let before = terminals(ts, upto - 1);
        match object_label(ts[upto - 1].object) {
            Some(o) => if is_subject(ts, o) {
                before
            } else {
                before.insert(o, terminal())
            },
            None => before,
        }
    }
}

/// Whether a triple is chosen: one with a blank subject and, for
/// `links`, a blank object, else an object that is none.
pub open spec fn chosen(t: TripleModel, links: bool) -> bool {
    t.subject is BlankNode && (t.object is BlankNode) == links
}

/// The chosen triples of `ts`, in order.
pub open spec fn selected(ts: Seq<TripleModel>, links: bool) -> Seq<TripleModel>
    decreases ts.len(),
{
    if ts.len() == 0 {
        ts
    } else if chosen(ts.last(), links) {
        selected(ts.drop_last(), links).push(ts.last())
    } else {
        selected(ts.drop_last(), links)
    }
}

/// The subjects of `ts`.
pub open spec fn subjects(ts: Seq<TripleModel>) -> Seq<SubjectModel> {
    ts.map_values(|t: TripleModel| t.subject)
}

/// The length of the first run of `keys`: of the longest stretch from
/// the start in which each key is the same as the one before it.
pub open spec fn first_run(keys: Seq<SubjectModel>) -> nat
    decreases keys.len(),
{
    if keys.len() == 0 {
        0
    } else if keys.len() >= 2 && same_subject(keys[0], keys[1]) {
        1 + first_run(keys.drop_first())
    } else {
        1
    }
}

/// The lengths of the runs of `keys`, in order.
pub open spec fn run_lengths(keys: Seq<SubjectModel>) -> Seq<nat>
    decreases keys.len(),
{
    let n = first_run(keys);
    if 0 < n <= keys.len() {
        seq![n] + run_lengths(keys.skip(n as int))
    } else {
        Seq::empty()
    }
}

/// What is hashed for a root: the predicate and the object of each of
/// its triples, in display form.
pub open spec fn root_parts(run: Seq<TripleModel>) -> Seq<Seq<char>>
    decreases run.len(),
{
    if run.len() == 0 {
        Seq::empty()
    } else {
        root_parts(run.drop_last()).push(iri_display(run.last().predicate)).push(
            object_display(run.last().object),
        )
    }
}

/// The label of a blank node, where it has one, else the node's own.
pub open spec fn relabel(labels: Labels, label: Seq<char>) -> Seq<char> {
    if labels.contains_key(label) {
        labels[label]
    } else {
        label
    }
}

/// What is hashed for a blank node that states something of blank
/// nodes: the predicate of each such triple in display form, and the
/// label of its object.
pub open spec fn link_parts(run: Seq<TripleModel>, labels: Labels) -> Seq<Seq<char>>
    decreases run.len(),
{
    if run.len() == 0 {
        Seq::empty()
    } else {
        link_parts(run.drop_last(), labels).push(iri_display(run.last().predicate)).push(
            match object_label(run.last().object) {
                Some(o) => relabel(labels, o),
                None => Seq::empty(),
            },
        )
    }
}

/// Whether the blank objects of all the triples of `run` have labels.
pub open spec fn all_labelled(run: Seq<TripleModel>, labels: Labels) -> bool {
    forall|i: int|
        0 <= i < run.len() ==> match object_label((#[trigger] run[i]).object) {
            Some(o) => labels.contains_key(o),
            None => true,
        }
}

/// `labels` with a label for each root: `roots` are the triples with a
/// blank subject and another object, and each run of one subject gives
/// that subject the digest of the run.
pub open spec fn seeded(roots: Seq<TripleModel>, labels: Labels) -> Labels
    decreases roots.len(),
{
    let n = first_run(subjects(roots));
    if 0 < n <= roots.len() {
        match subject_label(roots[0].subject) {
            Some(b) => seeded(
                roots.skip(n as int),
                labels.insert(b, digest_of(root_parts(roots.take(n as int)))),
            ),
            None => seeded(roots.skip(n as int), labels),
        }
    } else {
        labels
    }
}

/// One sweep over `links`, the triples from blank nodes to blank nodes:
/// `next` with a label for the subject of each run all of whose objects
/// have a label in `labels`.
pub open spec fn swept(links: Seq<TripleModel>, labels: Labels, next: Labels) -> Labels
    decreases links.len(),
{
    let n = first_run(subjects(links));
    if 0 < n <= links.len() {
        let run = links.take(n as int);
        match subject_label(links[0].subject) {
            Some(b) => if all_labelled(run, labels) {
                swept(links.skip(n as int), labels, next.insert(b, digest_of(link_parts(run, labels))))
            } else {
                swept(links.skip(n as int), labels, next)
            },
            None => swept(links.skip(n as int), labels, next),
        }
    } else {
        next
    }
}

/// Whether every blank subject of `ts` has a label.
pub open spec fn complete(ts: Seq<TripleModel>, labels: Labels) -> bool {
    forall|i: int|
        0 <= i < ts.len() ==> match subject_label((#[trigger] ts[i]).subject) {
            Some(b) => labels.contains_key(b),
            None => true,
        }
}

/// The number of triples of `ts` whose subject is a blank node
/// without a label.
pub open spec fn unlabelled(ts: Seq<TripleModel>, labels: Labels) -> nat
    decreases ts.len(),
{
    if ts.len() == 0 {
        0
    } else {
        unlabelled(ts.drop_last(), labels) + match subject_label(ts.last().subject) {
            Some(b) => if labels.contains_key(b) {
                0nat
            } else {
                1nat
            },
            None => 0nat,
        }
    }
}

/// The labels after sweeps that go on until every blank subject has a
/// label. There are none where a sweep leaves as many triples with an
/// unlabelled subject as it found, as when blank nodes lie on a cycle.
pub open spec fn spread(ts: Seq<TripleModel>, labels: Labels) -> Option<Labels>
    decreases unlabelled(ts, labels),
{
    if complete(ts, labels) {
        Some(labels)
    } else {
        let next = swept(selected(ts, true), labels, labels);
        if unlabelled(ts, next) < unlabelled(ts, labels) {
            spread(ts, next)
        } else {
            None
        }
    }
}

/// The labels of the blank nodes of `ts`, where all can be labelled.
pub open spec fn labels_of(ts: Seq<TripleModel>) -> Option<Labels> {
    spread(ts, seeded(selected(ts, false), terminals(ts, ts.len() as int)))
}

/// A triple with its blank nodes relabelled.
pub open spec fn relabelled(t: TripleModel, labels: Labels) -> TripleModel {
    TripleModel {
        subject: match t.subject {
            SubjectModel::BlankNode(b) => SubjectModel::BlankNode(relabel(labels, b)),
            s => s,
        },
        predicate: t.predicate,
        object: match t.object {
            ObjectModel::BlankNode(b) => ObjectModel::BlankNode(relabel(labels, b)),
            o => o,
        },
    }
}

/// The triples of `ts` with their blank nodes relabelled, where all can
/// be labelled.
pub open spec fn canonical(ts: Seq<TripleModel>) -> Option<Seq<TripleModel>> {
    match labels_of(ts) {
        Some(labels) => Some(ts.map_values(|t: TripleModel| relabelled(t, labels))),
        None => None,
    }
}

/// Calls `group_by` of `itertools` with the subject as the key: the
/// result holds the length of each group, and a group is a run of
/// triples whose subjects are each equal to the one before.
#[verifier::external_body]
fn subject_runs(triples: &Vec<Triple>) -> (runs: Vec<usize>)
    ensures
        runs@.len() == run_lengths(subjects(models(triples@))).len(),
        forall|i: int|
            0 <= i < runs@.len() ==> runs@[i] as nat == run_lengths(subjects(models(triples@)))[i],
{
    triples.iter().group_by(|t| &t.subject).into_iter().map(|(_, group)| group.count()).collect()
}

/// Puts the hexadecimal digits of `n` at the end of `s`.
fn push_hexadecimal(s: &mut String, n: u64)
    ensures
        final(s)@ == old(s)@ + hexadecimal(n as nat),
    decreases n,
{
    if n >= 16 {
        push_hexadecimal(s, n / 16);
    }
    let d: u8 = (n % 16) as u8;
    if d < 10 {
        s.push((48u8 + d) as char);
    } else {
        s.push((87u8 + d) as char);
    }
    assert(s@ =~= old(s)@ + hexadecimal(n as nat));
}

/// The digest of `parts`.
fn digest(parts: &Vec<String>) -> (s: String)
    ensures
        s@ == digest_of(parts@.map_values(|p: String| p@)),
{
    let ghost texts = parts@.map_values(|p: String| p@);
    let mut hasher = DefaultHasher::new();
    let mut mark: Vec<u8> = Vec::new();
    mark.push(0xffu8);
    let mut i: usize = 0;
    assert(texts.take(0) =~= Seq::<Seq<char>>::empty());
    while i < parts.len()
        invariant
            i <= parts.len(),
            texts == parts@.map_values(|p: String| p@),
            mark@ == seq![0xffu8],
            hasher@ == writes(texts.take(i as int)),
        decreases parts.len() - i,
    {
        hasher.write(parts[i].as_str().as_bytes());
        hasher.write(mark.as_slice());
        assert(texts.take(i + 1).drop_last() =~= texts.take(i as int));
        assert(texts.take(i + 1).last() == parts[i as int]@);
        i += 1;
    }
    assert(texts.take(i as int) =~= texts);
    let mut s = String::new();
    push_hexadecimal(&mut s, hasher.finish());
    assert(s@ =~= digest_of(texts));
    s
}

/// Labels by name, as a list that holds each name once.
struct LabelTable {
    names: Vec<String>,
    values: Vec<String>,
    model: Ghost<Labels>,
}

impl LabelTable {
    spec fn wf(&self) -> bool {
        &&& self.names.len() == self.values.len()
        &&& forall|i: int|
            0 <= i < self.names.len() ==> self.model@.contains_key(#[trigger] self.names[i]@)
                && self.model@[self.names[i]@] == self.values[i]@
        &&& forall|k: Seq<char>| #[trigger]
            self.model@.contains_key(k) ==> exists|i: int|
                0 <= i < self.names.len() && #[trigger] self.names[i]@ == k
        &&& forall|i: int, j: int|
            0 <= i < j < self.names.len() ==> #[trigger] self.names[i]@ != #[trigger] self.names[j]@
    }

    fn new() -> (t: Self)
        ensures
            t.wf(),
            t.model@ == Map::<Seq<char>, Seq<char>>::empty(),
    {
        LabelTable { names: Vec::new(), values: Vec::new(), model: Ghost(Map::empty()) }
    }

    fn position(&self, name: &String) -> (r: Option<usize>)
        requires
            self.wf(),
        ensures
            match r {
                Some(i) => i < self.names.len() && self.names[i as int]@ == name@,
                None => !self.model@.contains_key(name@),
            },
    {
        let mut i: usize = 0;
        while i < self.names.len()
            invariant
                i <= self.names.len(),
                forall|j: int| 0 <= j < i ==> (#[trigger] self.names[j])@ != name@,
            decreases self.names.len() - i,
        {
            if self.names[i] == *name {
                return Some(i);
            }
            i += 1;
        }
        None
    }

    fn insert(&mut self, name: String, value: String)
        requires
            old(self).wf(),
        ensures
            final(self).wf(),
            final(self).model@ == old(self).model@.insert(name@, value@),
    {
        match self.position(&name) {
            Some(i) => {
                self.values.set(i, value);
                self.model = Ghost(self.model@.insert(name@, value@));
            },
            None => {
                self.names.push(name);
                self.values.push(value);
                self.model = Ghost(self.model@.insert(name@, value@));
                assert forall|k: Seq<char>| #[trigger]
                    self.model@.contains_key(k) implies exists|i: int|
                    0 <= i < self.names.len() && #[trigger] self.names[i]@ == k by {
                    if k == name@ {
                        assert(self.names[self.names.len() - 1]@ == k);
                    } else {
                        let i = choose|i: int|
                            0 <= i < old(self).names.len() && #[trigger] old(self).names[i]@ == k;
                        assert(self.names[i]@ == k);
                    }
                }
            },
        }
    }

    fn contains(&self, name: &String) -> (r: bool)
        requires
            self.wf(),
        ensures
            r == self.model@.contains_key(name@),
    {
        self.position(name).is_some()
    }

    /// The label for `name`, or the name itself where it has none.
    fn relabel(&self, name: &String) -> (r: String)
        requires
            self.wf(),
        ensures
            r@ == relabel(self.model@, name@),
    {
        match self.position(name) {
            Some(i) => self.values[i].clone(),
            None => name.clone(),
        }
    }

    fn copy(&self) -> (t: Self)
        requires
            self.wf(),
        ensures
            t.wf(),
            t.model@ == self.model@,
    {
        let mut names: Vec<String> = Vec::new();
        let mut values: Vec<String> = Vec::new();
        let mut i: usize = 0;
        while i < self.names.len()
            invariant
                i <= self.names.len(),
                self.names.len() == self.values.len(),
                names.len() == i,
                values.len() == i,
                forall|j: int| 0 <= j < i ==> (#[trigger] names[j])@ == self.names[j]@,
                forall|j: int| 0 <= j < i ==> (#[trigger] values[j])@ == self.values[j]@,
            decreases self.names.len() - i,
        {
            names.push(self.names[i].clone());
            values.push(self.values[i].clone());
            i += 1;
        }
        let t = LabelTable { names, values, model: Ghost(self.model@) };
        assert(t.wf()) by {
            assert forall|k: Seq<char>| #[trigger]
                t.model@.contains_key(k) implies exists|i: int|
                0 <= i < t.names.len() && #[trigger] t.names[i]@ == k by {
                let i = choose|i: int| 0 <= i < self.names.len() && #[trigger] self.names[i]@ == k;
                assert(t.names[i]@ == k);
            }
        }
        t
    }
}

/// The chosen triples of `ts`, in order.
fn select(ts: &Vec<Triple>, links: bool) -> (r: Vec<Triple>)
    ensures
        models(r@) == selected(models(ts@), links),
{
    let mut r: Vec<Triple> = Vec::new();
    let mut i: usize = 0;
    assert(models(ts@).take(0) =~= Seq::<TripleModel>::empty());
    assert(models(r@) =~= Seq::<TripleModel>::empty());
    while i < ts.len()
        invariant
            i <= ts.len(),
            models(r@) == selected(models(ts@).take(i as int), links),
        decreases ts.len() - i,
    {
        let t = &ts[i];
        assert(models(ts@).take(i + 1).drop_last() =~= models(ts@).take(i as int));
        assert(models(ts@).take(i + 1).last() == t@);
        if t.subject.is_blank_node() && t.object.is_blank_node() == links {
            let ghost before = models(r@);
            r.push(t.clone());
            assert(models(r@) =~= before.push(t@));
        }
        i += 1;
    }
    assert(models(ts@).take(i as int) =~= models(ts@));
    r
}

/// Whether the blank node `label` is the subject of a triple of `ts`.
fn has_subject(ts: &Vec<Triple>, label: &String) -> (r: bool)
    ensures
        r == is_subject(models(ts@), label@),
{
    let mut i: usize = 0;
    while i < ts.len()
        invariant
            i <= ts.len(),
            forall|j: int|
                0 <= j < i ==> (#[trigger] models(ts@)[j]).subject != SubjectModel::BlankNode(
                    label@,
                ),
        decreases ts.len() - i,
    {
        match &ts[i].subject {
            Subject::BlankNode(b) => {
                if b.0 == *label {
                    assert(models(ts@)[i as int].subject == SubjectModel::BlankNode(label@));
                    return true;
                }
            },
            Subject::Iri(_) => {},
        }
        i += 1;
    }
    false
}

/// The labels of the terminals of `ts`.
fn terminal_labels(ts: &Vec<Triple>) -> (table: LabelTable)
    ensures
        table.wf(),
        table.model@ == terminals(models(ts@), ts.len() as int),
{
    let mut table = LabelTable::new();
    let mut i: usize = 0;
    while i < ts.len()
        invariant
            i <= ts.len(),
            table.wf(),
            table.model@ == terminals(models(ts@), i as int),
        decreases ts.len() - i,
    {
        match &ts[i].object {
            Object::BlankNode(b) => {
                if !has_subject(ts, &b.0) {
                    table.insert(b.0.clone(), String::from_str("terminal"));
                }
            },
            _ => {},
        }
        i += 1;
    }
    table
}

/// What is hashed for the root whose triples are `ts[from..to]`.
fn parts_of_root(ts: &Vec<Triple>, from: usize, to: usize) -> (parts: Vec<String>)
    requires
        from <= to <= ts.len(),
    ensures
        parts@.map_values(|p: String| p@) == root_parts(
            models(ts@).subrange(from as int, to as int),
        ),
{
    let mut parts: Vec<String> = Vec::new();
    let mut i: usize = from;
    assert(models(ts@).subrange(from as int, from as int) =~= Seq::<TripleModel>::empty());
    assert(parts@.map_values(|p: String| p@) =~= Seq::<Seq<char>>::empty());
    while i < to
        invariant
            from <= i <= to <= ts.len(),
            parts@.map_values(|p: String| p@) == root_parts(
                models(ts@).subrange(from as int, i as int),
            ),
        decreases to - i,
    {
        let ghost before = parts@.map_values(|p: String| p@);
        let p = ts[i].predicate.to_string();
        let o = ts[i].object.to_string();
        parts.push(p);
        parts.push(o);
        assert(models(ts@).subrange(from as int, i + 1).drop_last() =~= models(ts@).subrange(
            from as int,
            i as int,
        ));
        assert(models(ts@).subrange(from as int, i + 1).last() == ts[i as int]@);
        assert(parts@.map_values(|p: String| p@) =~= before.push(p@).push(o@));
        i += 1;
    }
    parts
}

/// What is hashed for the blank node whose triples about blank nodes
/// are `ts[from..to]`.
fn parts_of_links(ts: &Vec<Triple>, from: usize, to: usize, labels: &LabelTable) -> (parts: Vec<
    String,
>)
    requires
        from <= to <= ts.len(),
        labels.wf(),
    ensures
        parts@.map_values(|p: String| p@) == link_parts(
            models(ts@).subrange(from as int, to as int),
            labels.model@,
        ),
{
    let mut parts: Vec<String> = Vec::new();
    let mut i: usize = from;
    assert(models(ts@).subrange(from as int, from as int) =~= Seq::<TripleModel>::empty());
    assert(parts@.map_values(|p: String| p@) =~= Seq::<Seq<char>>::empty());
    while i < to
        invariant
            from <= i <= to <= ts.len(),
            labels.wf(),
            parts@.map_values(|p: String| p@) == link_parts(
                models(ts@).subrange(from as int, i as int),
                labels.model@,
            ),
        decreases to - i,
    {
        let ghost before = parts@.map_values(|p: String| p@);
        let p = ts[i].predicate.to_string();
        let o = match &ts[i].object {
            Object::BlankNode(b) => labels.relabel(&b.0),
            _ => String::new(),
        };
        parts.push(p);
        parts.push(o);
        assert(models(ts@).subrange(from as int, i + 1).drop_last() =~= models(ts@).subrange(
            from as int,
            i as int,
        ));
        assert(models(ts@).subrange(from as int, i + 1).last() == ts[i as int]@);
        assert(parts@.map_values(|p: String| p@) =~= before.push(p@).push(o@));
        i += 1;
    }
    parts
}

/// Whether the blank objects of `ts[from..to]` all have labels.
fn labelled(ts: &Vec<Triple>, from: usize, to: usize, labels: &LabelTable) -> (r: bool)
    requires
        from <= to <= ts.len(),
        labels.wf(),
    ensures
        r == all_labelled(models(ts@).subrange(from as int, to as int), labels.model@),
{
    let ghost run = models(ts@).subrange(from as int, to as int);
    let mut i: usize = from;
    while i < to
        invariant
            from <= i <= to <= ts.len(),
            labels.wf(),
            run == models(ts@).subrange(from as int, to as int),
            forall|j: int|
                0 <= j < i - from ==> match object_label((#[trigger] run[j]).object) {
                    Some(o) => labels.model@.contains_key(o),
                    None => true,
                },
        decreases to - i,
    {
        assert(run[i - from] == ts[i as int]@);
        match &ts[i].object {
            Object::BlankNode(b) => {
                if !labels.contains(&b.0) {
                    return false;
                }
            },
            _ => {},
        }
        i += 1;
    }
    true
}

/// Gives each root among `roots` its label.
fn seed(roots: &Vec<Triple>, table: &mut LabelTable)
    requires
        old(table).wf(),
    ensures
        final(table).wf(),
        final(table).model@ == seeded(models(roots@), old(table).model@),
{
    let runs = subject_runs(roots);
    let ghost all = models(roots@);
    let ghost lengths = run_lengths(subjects(all));
    let mut from: usize = 0;
    let mut r: usize = 0;
    assert(all.skip(0) =~= all);
    assert(lengths.skip(0) =~= lengths);
    while r < runs.len()
        invariant
            r <= runs.len(),
            from <= roots.len(),
            all == models(roots@),
            lengths == run_lengths(subjects(all)),
            runs@.len() == lengths.len(),
            forall|i: int| 0 <= i < runs@.len() ==> runs@[i] as nat == lengths[i],
            table.wf(),
            run_lengths(subjects(all.skip(from as int))) == lengths.skip(r as int),
            seeded(all, old(table).model@) == seeded(all.skip(from as int), table.model@),
        decreases runs.len() - r,
    {
        let ghost rest = all.skip(from as int);
        let n = runs[r];
        assert(lengths.skip(r as int)[0] == lengths[r as int]);
        assert(n as nat == first_run(subjects(rest)) && 0 < n <= rest.len());
        assert(subjects(rest).skip(n as int) =~= subjects(rest.skip(n as int)));
        assert(rest.skip(n as int) =~= all.skip(from + n));
        assert(lengths.skip(r as int).skip(1) =~= lengths.skip(r + 1));
        assert(run_lengths(subjects(rest)).skip(1) =~= run_lengths(subjects(rest.skip(n as int))));
        assert(rest.take(n as int) =~= all.subrange(from as int, from + n));
        assert(rest[0] == roots[from as int]@);
        match &roots[from].subject {
            Subject::BlankNode(b) => {
                let parts = parts_of_root(roots, from, from + n);
                table.insert(b.0.clone(), digest(&parts));
            },
            Subject::Iri(_) => {},
        }
        from = from + n;
        r += 1;
    }
    assert(lengths.skip(r as int) =~= Seq::<nat>::empty());
}

/// One sweep over `links`: the labels after it.
fn sweep(links: &Vec<Triple>, labels: &LabelTable) -> (next: LabelTable)
    requires
        labels.wf(),
    ensures
        next.wf(),
        next.model@ == swept(models(links@), labels.model@, labels.model@),
{
    let mut next = labels.copy();
    let runs = subject_runs(links);
    let ghost all = models(links@);
    let ghost lengths = run_lengths(subjects(all));
    let mut from: usize = 0;
    let mut r: usize = 0;
    assert(all.skip(0) =~= all);
    assert(lengths.skip(0) =~= lengths);
    while r < runs.len()
        invariant
            r <= runs.len(),
            from <= links.len(),
            all == models(links@),
            lengths == run_lengths(subjects(all)),
            runs@.len() == lengths.len(),
            forall|i: int| 0 <= i < runs@.len() ==> runs@[i] as nat == lengths[i],
            labels.wf(),
            next.wf(),
            run_lengths(subjects(all.skip(from as int))) == lengths.skip(r as int),
            swept(all, labels.model@, labels.model@) == swept(
                all.skip(from as int),
                labels.model@,
                next.model@,
            ),
        decreases runs.len() - r,
    {
        let ghost rest = all.skip(from as int);
        let n = runs[r];
        assert(lengths.skip(r as int)[0] == lengths[r as int]);
        assert(n as nat == first_run(subjects(rest)) && 0 < n <= rest.len());
        assert(subjects(rest).skip(n as int) =~= subjects(rest.skip(n as int)));
        assert(rest.skip(n as int) =~= all.skip(from + n));
        assert(lengths.skip(r as int).skip(1) =~= lengths.skip(r + 1));
        assert(run_lengths(subjects(rest)).skip(1) =~= run_lengths(subjects(rest.skip(n as int))));
        assert(rest.take(n as int) =~= all.subrange(from as int, from + n));
        assert(rest[0] == links[from as int]@);
        match &links[from].subject {
            Subject::BlankNode(b) => {
                if labelled(links, from, from + n, labels) {
                    let parts = parts_of_links(links, from, from + n, labels);
                    next.insert(b.0.clone(), digest(&parts));
                }
            },
            Subject::Iri(_) => {},
        }
        from = from + n;
        r += 1;
    }
    assert(lengths.skip(r as int) =~= Seq::<nat>::empty());
    next
}

/// The number of triples of `ts` whose subject is a blank node without
/// a label.
fn count_unlabelled(ts: &Vec<Triple>, labels: &LabelTable) -> (n: usize)
    requires
        labels.wf(),
    ensures
        n == unlabelled(models(ts@), labels.model@),
{
    let mut n: usize = 0;
    let mut i: usize = 0;
    assert(models(ts@).take(0) =~= Seq::<TripleModel>::empty());
    while i < ts.len()
        invariant
            i <= ts.len(),
            labels.wf(),
            n <= i,
            n == unlabelled(models(ts@).take(i as int), labels.model@),
        decreases ts.len() - i,
    {
        assert(models(ts@).take(i + 1).drop_last() =~= models(ts@).take(i as int));
        assert(models(ts@).take(i + 1).last() == ts[i as int]@);
        match &ts[i].subject {
            Subject::BlankNode(b) => {
                if !labels.contains(&b.0) {
                    n += 1;
                }
            },
            Subject::Iri(_) => {},
        }
        i += 1;
    }
    assert(models(ts@).take(i as int) =~= models(ts@));
    n
}

/// Whether every blank subject of `ts` has a label.
fn is_complete(ts: &Vec<Triple>, labels: &LabelTable) -> (r: bool)
    requires
        labels.wf(),
    ensures
        r == complete(models(ts@), labels.model@),
{
    let mut i: usize = 0;
    while i < ts.len()
        invariant
            i <= ts.len(),
            labels.wf(),
            forall|j: int|
                0 <= j < i ==> match subject_label((#[trigger] models(ts@)[j]).subject) {
                    Some(b) => labels.model@.contains_key(b),
                    None => true,
                },
        decreases ts.len() - i,
    {
        match &ts[i].subject {
            Subject::BlankNode(b) => {
                if !labels.contains(&b.0) {
                    assert(subject_label(models(ts@)[i as int].subject) == Some(b.0@));
                    return false;
                }
            },
            Subject::Iri(_) => {},
        }
        i += 1;
    }
    true
}

/// A triple with its blank nodes relabelled.
fn relabel_triple(t: &Triple, labels: &LabelTable) -> (r: Triple)
    requires
        labels.wf(),
    ensures
        r@ == relabelled(t@, labels.model@),
{
    let subject = match &t.subject {
        Subject::BlankNode(b) => Subject::BlankNode(BlankNode(labels.relabel(&b.0))),
        Subject::Iri(i) => Subject::Iri(i.clone()),
    };
    let object = match &t.object {
        Object::BlankNode(b) => Object::BlankNode(BlankNode(labels.relabel(&b.0))),
        Object::Iri(i) => Object::Iri(i.clone()),
        Object::Literal(l) => Object::Literal(l.clone()),
    };
    Triple::new(subject, t.predicate.clone(), object)
}

impl Triples {
    /// Gives the blank nodes their labels, where all can be labelled,
    /// and says whether they could. The triples are meant to be sorted:
    /// what is stated of a blank node is then told in one run.
    pub fn hashed(&mut self) -> (done: bool)
        ensures
            match canonical(old(self)@) {
                Some(ts) => done && final(self)@ == ts,
                None => !done && final(self)@ == old(self)@,
            },
    {
        let mut labels = terminal_labels(&self.0);
        let roots = select(&self.0, false);
        seed(&roots, &mut labels);
        let links = select(&self.0, true);
        let mut missing = count_unlabelled(&self.0, &labels);
        loop
            invariant
                labels.wf(),
                self.0 == old(self).0,
                models(links@) == selected(self@, true),
                missing == unlabelled(self@, labels.model@),
                labels_of(self@) == spread(self@, labels.model@),
            ensures
                labels.wf(),
                self.0 == old(self).0,
                labels_of(self@) == Some(labels.model@),
            decreases missing,
        {
            if is_complete(&self.0, &labels) {
                break ;
            }
            let next = sweep(&links, &labels);
            let left = count_unlabelled(&self.0, &next);
            if left >= missing {
                return false;
            }
            labels = next;
            missing = left;
        }
        let mut out: Vec<Triple> = Vec::new();
        let mut i: usize = 0;
        while i < self.0.len()
            invariant
                i <= self.0.len(),
                labels.wf(),
                self.0 == old(self).0,
                out.len() == i,
                forall|j: int| 0 <= j < i ==> (#[trigger] out[j])@ == relabelled(
                    self.0[j]@,
                    labels.model@,
                ),
            decreases self.0.len() - i,
        {
            out.push(relabel_triple(&self.0[i], &labels));
            i += 1;
        }
        let ghost wanted = old(self)@.map_values(|t: TripleModel| relabelled(t, labels.model@));
        assert(models(out@) =~= wanted);
        self.0 = out;
        true
    }
}

} // verus!
