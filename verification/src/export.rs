//! Export planning: the exact file names and file contents for word
//! sets, labelled sets, automata and task bundles. Writing the planned
//! files to storage is left to the caller; everything here is a pure
//! function of the exported values, so exporting the same data twice
//! plans identical contents.

use vstd::prelude::*;
use vstd::string::*;
use crate::csvio::{csv_into_bytes, csv_write_row, csv_writer_new, rows_of};
use crate::engine::OmegaAutomaton;
use crate::rows::{
    labelled_fields, labelled_row, labelled_rows, lemma_symbols_field_plain,
    lemma_verdict_field_plain, plain_csv_bytes, plain_rows, word_fields, word_row, word_rows,
};
use crate::words::{word_wf, UpWord, UpWordV};

verus! {

/// Every word of the sample can be rendered: well formed over the full
/// letter alphabet.
pub open spec fn renderable(s: Seq<UpWordV>) -> bool {
    forall|i: int| 0 <= i < s.len() ==> word_wf(#[trigger] s[i], 26)
}

/// Every labelled word of the sample can be rendered.
pub open spec fn renderable_labelled(s: Seq<(UpWordV, bool)>) -> bool {
    forall|i: int| 0 <= i < s.len() ==> word_wf((#[trigger] s[i]).0, 26)
}

/// The view of a labelled sample.
pub open spec fn labelled_view(s: Seq<(UpWord, bool)>) -> Seq<(UpWordV, bool)> {
    s.map_values(|p: (UpWord, bool)| (p.0@, p.1))
}

/// Unlabelled word records are plain, two fields each.
proof fn lemma_word_rows_plain(s: Seq<UpWordV>)
    requires
        renderable(s),
    ensures
        plain_rows(word_rows(s)),
        forall|i: int| 0 <= i < word_rows(s).len() ==> (#[trigger] word_rows(s)[i]).len() == 2,
{
    assert forall|i: int| 0 <= i < word_rows(s).len() implies {
        let row = #[trigger] word_rows(s)[i];
        &&& row.len() == 2
        &&& forall|j: int| 0 <= j < row.len() ==> crate::rows::plain_field(#[trigger] row[j])
    } by {
        assert(word_rows(s)[i] == word_row(s[i]));
        lemma_symbols_field_plain(s[i].spoke);
        lemma_symbols_field_plain(s[i].cycle);
    }
}

/// Labelled word records are plain, three fields each.
proof fn lemma_labelled_rows_plain(s: Seq<(UpWordV, bool)>)
    requires
        renderable_labelled(s),
    ensures
        plain_rows(labelled_rows(s)),
        forall|i: int|
            0 <= i < labelled_rows(s).len() ==> (#[trigger] labelled_rows(s)[i]).len() == 3,
{
    assert forall|i: int| 0 <= i < labelled_rows(s).len() implies {
        let row = #[trigger] labelled_rows(s)[i];
        &&& row.len() == 3
        &&& forall|j: int| 0 <= j < row.len() ==> crate::rows::plain_field(#[trigger] row[j])
    } by {
        assert(labelled_rows(s)[i] == labelled_row(s[i].0, s[i].1));
        lemma_symbols_field_plain(s[i].0.spoke);
        lemma_symbols_field_plain(s[i].0.cycle);
        lemma_verdict_field_plain(s[i].1);
    }
}

/// The delimited text content of an unlabelled word set: one record per
/// word, spoke string then cycle string.
pub fn export_set(set: &Vec<UpWord>) -> (r: Vec<u8>)
    requires
        renderable(set@.map_values(|w: UpWord| w@)),
    ensures
        r@ == plain_csv_bytes(word_rows(set@.map_values(|w: UpWord| w@))),
{
    let ghost sv = set@.map_values(|w: UpWord| w@);
    let mut w = csv_writer_new();
    let mut i: usize = 0;
    while i < set.len()
        invariant
            i <= set.len(),
            sv == set@.map_values(|w: UpWord| w@),
            renderable(sv),
            rows_of(w) == word_rows(sv.take(i as int)),
        decreases set.len() - i,
    {
        proof {
            assert(word_wf(sv[i as int], 26));
            assert(sv[i as int] == set@[i as int]@);
            assert forall|j: int| 0 <= j < set@[i as int].spoke@.len() implies (#[trigger] set@[
                i as int
            ].spoke@[j]) < 26 by {
                assert((sv[i as int].spoke[j] as nat) < 26);
            }
            assert forall|j: int| 0 <= j < set@[i as int].cycle@.len() implies (#[trigger] set@[
                i as int
            ].cycle@[j]) < 26 by {
                assert((sv[i as int].cycle[j] as nat) < 26);
            }
        }
        let fields = word_fields(&set[i]);
        proof {
            assert(fields@.map_values(|f: String| f@).len() == fields@.len());
            assert(fields@.len() == 2);
            assert forall|k: int| 0 <= k < rows_of(w).len() implies (#[trigger] rows_of(w)[
                k
            ]).len() == fields@.len() by {
                assert(rows_of(w)[k] == word_row(sv.take(i as int)[k]));
                assert(word_row(sv.take(i as int)[k]).len() == 2);
            }
        }
        csv_write_row(&mut w, &fields);
        proof {
            assert(fields@.map_values(|f: String| f@) == word_row(sv[i as int]));
            assert(word_rows(sv.take(i + 1)) =~= word_rows(sv.take(i as int)).push(
                word_row(sv[i as int]),
            ));
        }
        i = i + 1;
    }
    proof {
        assert(sv.take(sv.len() as int) =~= sv);
        lemma_word_rows_plain(sv);
    }
    csv_into_bytes(w)
}

/// The delimited text content of a labelled word set: one record per
/// word, spoke string, cycle string, verdict string.
pub fn export_labelled_set(set: &Vec<(UpWord, bool)>) -> (r: Vec<u8>)
    requires
        renderable_labelled(labelled_view(set@)),
    ensures
        r@ == plain_csv_bytes(labelled_rows(labelled_view(set@))),
{
    let ghost sv = labelled_view(set@);
    let mut w = csv_writer_new();
    let mut i: usize = 0;
    while i < set.len()
        invariant
            i <= set.len(),
            sv == labelled_view(set@),
            renderable_labelled(sv),
            rows_of(w) == labelled_rows(sv.take(i as int)),
        decreases set.len() - i,
    {
        proof {
            assert(word_wf(sv[i as int].0, 26));
            assert(sv[i as int].0 == set@[i as int].0@);
            assert forall|j: int| 0 <= j < set@[i as int].0.spoke@.len() implies (#[trigger] set@[
                i as int
            ].0.spoke@[j]) < 26 by {
                assert((sv[i as int].0.spoke[j] as nat) < 26);
            }
            assert forall|j: int| 0 <= j < set@[i as int].0.cycle@.len() implies (#[trigger] set@[
                i as int
            ].0.cycle@[j]) < 26 by {
                assert((sv[i as int].0.cycle[j] as nat) < 26);
            }
        }
        let fields = labelled_fields(&set[i].0, set[i].1);
        proof {
            assert(fields@.map_values(|f: String| f@).len() == fields@.len());
            assert(fields@.len() == 3);
            assert forall|k: int| 0 <= k < rows_of(w).len() implies (#[trigger] rows_of(w)[
                k
            ]).len() == fields@.len() by {
                assert(rows_of(w)[k] == labelled_row(
                    sv.take(i as int)[k].0,
                    sv.take(i as int)[k].1,
                ));
                assert(labelled_row(sv.take(i as int)[k].0, sv.take(i as int)[k].1).len() == 3);
            }
        }
        csv_write_row(&mut w, &fields);
        proof {
            assert(fields@.map_values(|f: String| f@) == labelled_row(
                sv[i as int].0,
                sv[i as int].1,
            ));
            assert(labelled_rows(sv.take(i + 1)) =~= labelled_rows(sv.take(i as int)).push(
                labelled_row(sv[i as int].0, sv[i as int].1),
            ));
        }
        i = i + 1;
    }
    proof {
        assert(sv.take(sv.len() as int) =~= sv);
        lemma_labelled_rows_plain(sv);
    }
    csv_into_bytes(w)
}

/// The serialized text of an automaton, as the engine renders it.
pub fn export_automaton<A: OmegaAutomaton>(aut: &A) -> (r: String)
    ensures
        r@ == aut.spec_hoa(),
{
    aut.to_hoa()
}

/// The planned files of one task bundle: the bundle directory, and the
/// path and content of the automaton file and of the two labelled sets.
pub struct TaskExport {
    pub dir: String,
    pub aut_path: String,
    pub aut_hoa: String,
    pub train_path: String,
    pub train_csv: Vec<u8>,
    pub test_path: String,
    pub test_csv: Vec<u8>,
}

/// The mathematical content of a planned task export.
#[verifier::ext_equal]
pub struct TaskExportV {
    pub dir: Seq<char>,
    pub aut_path: Seq<char>,
    pub aut_hoa: Seq<char>,
    pub train_path: Seq<char>,
    pub train_csv: Seq<u8>,
    pub test_path: Seq<char>,
    pub test_csv: Seq<u8>,
}

impl View for TaskExport {
    type V = TaskExportV;

    open spec fn view(&self) -> TaskExportV {
        TaskExportV {
            dir: self.dir@,
            aut_path: self.aut_path@,
            aut_hoa: self.aut_hoa@,
            train_path: self.train_path@,
            train_csv: self.train_csv@,
            test_path: self.test_path@,
            test_csv: self.test_csv@,
        }
    }
}

/// What a task export must hold, as a function of the task's name, the
/// automaton's serialization and the two labelled samples.
pub open spec fn is_task_export(
    name: Seq<char>,
    hoa: Seq<char>,
    train: Seq<(UpWordV, bool)>,
    test: Seq<(UpWordV, bool)>,
    e: TaskExportV,
) -> bool {
    &&& e.dir == "data/tasks/"@ + name
    &&& e.aut_path == "data/tasks/"@ + name + "/aut.hoa"@
    &&& e.aut_hoa == hoa
    &&& e.train_path == "data/tasks/"@ + name + "/train.csv"@
    &&& e.train_csv == plain_csv_bytes(labelled_rows(train))
    &&& e.test_path == "data/tasks/"@ + name + "/test.csv"@
    &&& e.test_csv == plain_csv_bytes(labelled_rows(test))
}

/// Plan the export of one learning task: the bundle directory and the
/// three files it holds. The contents are a pure function of the name,
/// the automaton and the samples, so re-exporting the same task plans
/// the same bytes.
pub fn export_task<A: OmegaAutomaton>(
    name: String,
    aut: &A,
    train: &Vec<(UpWord, bool)>,
    test: &Vec<(UpWord, bool)>,
) -> (r: TaskExport)
    requires
        renderable_labelled(labelled_view(train@)),
        renderable_labelled(labelled_view(test@)),
    ensures
        is_task_export(name@, aut.spec_hoa(), labelled_view(train@), labelled_view(test@), r@),
{
    let mut dir = String::new();
    dir.append("data/tasks/");
    dir.append(name.as_str());
    let mut aut_path = dir.clone();
    aut_path.append("/aut.hoa");
    let mut train_path = dir.clone();
    train_path.append("/train.csv");
    let mut test_path = dir.clone();
    test_path.append("/test.csv");
    let aut_hoa = export_automaton(aut);
    let train_csv = export_labelled_set(train);
    let test_csv = export_labelled_set(test);
    TaskExport { dir, aut_path, aut_hoa, train_path, train_csv, test_path, test_csv }
}

/// Exporting a task is deterministic: two exports of the same name,
/// automaton serialization and labelled samples plan identical
/// directories, paths and file contents.
pub proof fn lemma_export_task_deterministic(
    name: Seq<char>,
    hoa: Seq<char>,
    train: Seq<(UpWordV, bool)>,
    test: Seq<(UpWordV, bool)>,
    e1: TaskExportV,
    e2: TaskExportV,
)
    requires
        is_task_export(name, hoa, train, test, e1),
        is_task_export(name, hoa, train, test, e2),
    ensures
        e1 == e2,
{
    assert(e1 =~= e2);
}

} // verus!
