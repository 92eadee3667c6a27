//! Merging two scripts whose functions collide.
//!
//! Functions that only one script defines are kept as they stand. For each
//! function that both define (a collision), in the order of the left script:
//! - a function the game does not define is renamed on each side, with the
//!   suffixes `_left` and `_right`;
//! - where one side injects (keeps the game's function under an alias) and
//!   the other overrides, the override is emitted, then the alias line, then
//!   the injection;
//! - where both override, or both inject, the two bodies are merged through
//!   the diff engine; an override that deletes code of the game's original
//!   is refused.
use vstd::prelude::*;
use diff_match_patch_rs::{Compat, DiffMatchPatch, Ops, Patch, PatchInput};
use crate::error::{BabaError, ModdingError};
use crate::luafile::{FileView, LuaFile, alias_of, dedup, uses_injection};
use crate::luafuncdef::{LuaFuncDef, def_views, definition_of, name_views};
use crate::luafunction::{FunctionView, LuaFunction, first_with_def, find_function, function_views, functions_of, parse_function};
use crate::text::{
    append_all, chars_of, collapse_newlines, collapsed_newlines, lemma_collapse_no_blank_run, newline, no_blank_run,
    remove_all, replace_all,
    replace_text,
};

verus! {

/// Patches made by the diff engine; the library only hands them on.
#[verifier::external_body]
pub struct PatchSet {
    patches: Vec<Patch<Compat>>,
}

/// What an edit does to the old text.
#[derive(Debug, Clone, Copy, PartialEq, Eq, Structural)]
pub enum EditOp {
    Delete,
    Equal,
    Insert,
}

/// One step of a diff: a piece of text deleted, kept or inserted.
#[derive(Debug, Clone)]
pub struct Edit {
    pub op: EditOp,
    pub text: Vec<char>,
}

pub type EditView = (EditOp, Seq<char>);

pub open spec fn edit_views(es: Seq<Edit>) -> Seq<EditView> {
    es.map_values(|e: Edit| (e.op, e.text@))
}

/// The old text that a diff describes: its kept and deleted pieces.
pub open spec fn old_text(es: Seq<EditView>) -> Seq<char>
    decreases es.len(),
{
    if es.len() == 0 {
        Seq::empty()
    } else if es.last().0 == EditOp::Insert {
        old_text(es.drop_last())
    } else {
        old_text(es.drop_last()) + es.last().1
    }
}

/// The new text that a diff describes: its kept and inserted pieces.
pub open spec fn new_text(es: Seq<EditView>) -> Seq<char>
    decreases es.len(),
{
    if es.len() == 0 {
        Seq::empty()
    } else if es.last().0 == EditOp::Delete {
        new_text(es.drop_last())
    } else {
        new_text(es.drop_last()) + es.last().1
    }
}

/// The diff deletes something.
pub open spec fn has_deletion(es: Seq<EditView>) -> bool {
    exists|i: int| 0 <= i < es.len() && es[i].0 == EditOp::Delete
}

/// The diff inserts something.
pub open spec fn has_insertion(es: Seq<EditView>) -> bool {
    exists|i: int| 0 <= i < es.len() && es[i].0 == EditOp::Insert
}

/// The total length of the pieces that a diff keeps.
pub open spec fn kept_len(es: Seq<EditView>) -> int
    decreases es.len(),
{
    if es.len() == 0 {
        0
    } else if es.last().0 == EditOp::Equal {
        kept_len(es.drop_last()) + es.last().1.len()
    } else {
        kept_len(es.drop_last())
    }
}

/// The diff without its deletions.
pub open spec fn without_deletions(es: Seq<EditView>) -> Seq<EditView>
    decreases es.len(),
{
    if es.len() == 0 {
        es
    } else if es.last().0 == EditOp::Delete {
        without_deletions(es.drop_last())
    } else {
        without_deletions(es.drop_last()).push(es.last())
    }
}

/// `a` is `b` with some characters taken out (matched from the end).
pub open spec fn is_subseq(a: Seq<char>, b: Seq<char>) -> bool
    decreases b.len(),
{
    if a.len() == 0 {
        true
    } else if b.len() == 0 {
        false
    } else if a.last() == b.last() {
        is_subseq(a.drop_last(), b.drop_last())
    } else {
        is_subseq(a, b.drop_last())
    }
}

proof fn lemma_subseq_push(a: Seq<char>, b: Seq<char>, c: char)
    requires
        is_subseq(a, b),
    ensures
        is_subseq(a, b.push(c)),
    decreases b.len(), 1nat,
{
    assert(b.push(c).drop_last() =~= b);
    if a.len() > 0 && a.last() == c {
        lemma_subseq_drop(a, b);
    }
}

proof fn lemma_subseq_drop(a: Seq<char>, b: Seq<char>)
    requires
        a.len() > 0,
        is_subseq(a, b),
    ensures
        is_subseq(a.drop_last(), b),
    decreases b.len(), 0nat,
{
    let b0 = b.drop_last();
    assert(b0.push(b.last()) =~= b);
    if a.last() == b.last() {
        lemma_subseq_push(a.drop_last(), b0, b.last());
    } else {
        lemma_subseq_drop(a, b0);
        lemma_subseq_push(a.drop_last(), b0, b.last());
    }
}

proof fn lemma_subseq_extend(a: Seq<char>, b: Seq<char>, y: Seq<char>)
    requires
        is_subseq(a, b),
    ensures
        is_subseq(a, b + y),
    decreases y.len(),
{
    if y.len() > 0 {
        lemma_subseq_extend(a, b, y.drop_last());
        assert((b + y.drop_last()).push(y.last()) =~= b + y);
        lemma_subseq_push(a, b + y.drop_last(), y.last());
    } else {
        assert(b + y =~= b);
    }
}

proof fn lemma_subseq_both(a: Seq<char>, b: Seq<char>, x: Seq<char>)
    requires
        is_subseq(a, b),
    ensures
        is_subseq(a + x, b + x),
    decreases x.len(),
{
    if x.len() > 0 {
        lemma_subseq_both(a, b, x.drop_last());
        assert((a + x).drop_last() =~= a + x.drop_last());
        assert((b + x).drop_last() =~= b + x.drop_last());
    } else {
        assert(a + x =~= a);
        assert(b + x =~= b);
    }
}

/// A diff that deletes nothing describes an old text that is the new text
/// with some characters taken out.
pub proof fn lemma_no_deletion_keeps_old(es: Seq<EditView>)
    requires
        !has_deletion(es),
    ensures
        is_subseq(old_text(es), new_text(es)),
    decreases es.len(),
{
    if es.len() > 0 {
        let e = es.last();
        assert(es.last() == es[es.len() - 1]);
        assert(!has_deletion(es.drop_last())) by {
            if has_deletion(es.drop_last()) {
                let i = choose|i: int| 0 <= i < es.drop_last().len() && es.drop_last()[i].0 == EditOp::Delete;
                assert(es[i].0 == EditOp::Delete);
            }
        }
        lemma_no_deletion_keeps_old(es.drop_last());
        if e.0 == EditOp::Insert {
            lemma_subseq_extend(old_text(es.drop_last()), new_text(es.drop_last()), e.1);
        } else {
            lemma_subseq_both(old_text(es.drop_last()), new_text(es.drop_last()), e.1);
        }
    }
}

/// Relies on `DiffMatchPatch::diff_main` in char mode: on success, the
/// edits spell the old text through their kept and deleted pieces, and the
/// new text through their kept and inserted pieces; for equal texts it
/// succeeds with no edit (empty texts) or one kept piece. Which edits come
/// out otherwise also depends on a time limit, so nothing more is stated.
#[verifier::external_body]
fn diff_edits(old: &str, new: &str) -> (r: Result<Vec<Edit>, diff_match_patch_rs::Error>)
    ensures
        match r {
            Ok(es) => old_text(edit_views(es@)) == old@ && new_text(edit_views(es@)) == new@,
            Err(_) => true,
        },
        old@ == new@ ==> match r {
            Ok(es) => (es@.len() == 0 && old@.len() == 0) || (es@.len() == 1 && edit_views(es@)[0] == (EditOp::Equal, old@)),
            Err(_) => false,
        },
{
    let diffs = DiffMatchPatch::new().diff_main::<Compat>(old, new)?;
    Ok(diffs.iter().map(|d| Edit {
        op: match d.op() { Ops::Delete => EditOp::Delete, Ops::Equal => EditOp::Equal, Ops::Insert => EditOp::Insert },
        text: d.data().to_vec(),
    }).collect())
}

/// What a patch set was made from: the source text and the edits.
pub uninterp spec fn patches_from(p: PatchSet) -> (Seq<char>, Seq<EditView>);

/// Relies on `DiffMatchPatch::patch_make` with a source text and edits: it
/// always succeeds, and its patches are made from that text and those
/// edits. Edits that delete, or keep more than the text holds, make it
/// index out of the text, so they are excluded.
#[verifier::external_body]
fn make_patches(text: &str, edits: &Vec<Edit>) -> (r: Result<PatchSet, diff_match_patch_rs::Error>)
    requires
        !has_deletion(edit_views(edits@)),
        kept_len(edit_views(edits@)) <= text@.len(),
    ensures
        match r {
            Ok(p) => patches_from(p) == (text@, edit_views(edits@)),
            Err(_) => false,
        },
{
    let diffs: Vec<diff_match_patch_rs::dmp::Diff<Compat>> = edits.iter().map(|e| diff_match_patch_rs::dmp::Diff::new(
        match e.op { EditOp::Delete => Ops::Delete, EditOp::Equal => Ops::Equal, EditOp::Insert => Ops::Insert },
        &e.text,
    )).collect();
    let patches = DiffMatchPatch::new().patch_make(PatchInput::new_text_diffs(text, &diffs))?;
    Ok(PatchSet { patches })
}

/// Relies on `DiffMatchPatch::patch_apply`: the patched text, and for each
/// patch whether it applied. Patches made from edits that only keep text
/// are none, and leave the text as it is. Patches made from edits that
/// delete can overflow when they fail to match, so they are excluded.
#[verifier::external_body]
fn apply_patches(patches: &PatchSet, text: &str) -> (r: Result<(String, Vec<bool>), diff_match_patch_rs::Error>)
    requires
        !has_deletion(patches_from(*patches).1),
        kept_len(patches_from(*patches).1) <= patches_from(*patches).0.len(),
    ensures
        !has_insertion(patches_from(*patches).1) ==> match r {
            Ok(x) => x.0@ == text@ && x.1@.len() == 0,
            Err(_) => false,
        },
{
    DiffMatchPatch::new().patch_apply(&patches.patches, text)
}

/// Removing deletions keeps what the diff keeps and inserts.
pub proof fn lemma_without_deletions(es: Seq<EditView>)
    ensures
        !has_deletion(without_deletions(es)),
        kept_len(without_deletions(es)) == kept_len(es),
        kept_len(es) <= old_text(es).len(),
        !has_insertion(es) ==> !has_insertion(without_deletions(es)),
    decreases es.len(),
{
    if es.len() > 0 {
        lemma_without_deletions(es.drop_last());
        let w = without_deletions(es.drop_last());
        assert(!has_insertion(es) ==> !has_insertion(es.drop_last())) by {
            if !has_insertion(es) && has_insertion(es.drop_last()) {
                let i = choose|i: int| 0 <= i < es.drop_last().len() && es.drop_last()[i].0 == EditOp::Insert;
                assert(es[i].0 == EditOp::Insert);
            }
        }
        if es.last().0 != EditOp::Delete {
            assert(!has_deletion(w.push(es.last()))) by {
                if has_deletion(w.push(es.last())) {
                    let i = choose|i: int| 0 <= i < w.push(es.last()).len() && w.push(es.last())[i].0 == EditOp::Delete;
                    if i < w.len() {
                        assert(w[i].0 == EditOp::Delete);
                    }
                }
            }
            assert(w.push(es.last()).drop_last() =~= w);
            if !has_insertion(es) {
                assert(es.last() == es[es.len() - 1]);
                assert(!has_insertion(w.push(es.last()))) by {
                    if has_insertion(w.push(es.last())) {
                        let i = choose|i: int| 0 <= i < w.push(es.last()).len() && w.push(es.last())[i].0 == EditOp::Insert;
                        if i < w.len() {
                            assert(w[i].0 == EditOp::Insert);
                        }
                    }
                }
            }
        }
    }
}

/// The edits of a diff, without its deletions.
pub fn strip_deletions(edits: &Vec<Edit>) -> (r: Vec<Edit>)
    ensures
        edit_views(r@) == without_deletions(edit_views(edits@)),
{
    let mut out: Vec<Edit> = Vec::new();
    let mut i: usize = 0;
    while i < edits.len()
        invariant
            i <= edits.len(),
            edit_views(out@) == without_deletions(edit_views(edits@).take(i as int)),
        decreases edits.len() - i,
    {
        assert(edit_views(edits@).take(i + 1).drop_last() =~= edit_views(edits@).take(i as int));
        let e = &edits[i];
        if e.op != EditOp::Delete {
            let ghost before = out@;
            let mut text: Vec<char> = Vec::new();
            append_all(&mut text, &e.text);
            assert(text@ =~= e.text@);
            out.push(Edit { op: e.op, text });
            assert(edit_views(out@) =~= edit_views(before).push((e.op, e.text@)));
        }
        i += 1;
    }
    assert(edit_views(edits@).take(i as int) =~= edit_views(edits@));
    out
}

/// Whether a diff deletes something.
pub fn deletes_something(edits: &Vec<Edit>) -> (r: bool)
    ensures
        r == has_deletion(edit_views(edits@)),
{
    let mut i: usize = 0;
    while i < edits.len()
        invariant
            i <= edits.len(),
            forall|j: int| 0 <= j < i ==> edits@[j].op != EditOp::Delete,
        decreases edits.len() - i,
    {
        if edits[i].op == EditOp::Delete {
            assert(edit_views(edits@)[i as int].0 == EditOp::Delete);
            return true;
        }
        i += 1;
    }
    assert(!has_deletion(edit_views(edits@))) by {
        if has_deletion(edit_views(edits@)) {
            let j = choose|j: int| 0 <= j < edit_views(edits@).len() && edit_views(edits@)[j].0 == EditOp::Delete;
            assert(edits@[j].op == EditOp::Delete);
        }
    }
    false
}

/// The check of an override merge: the diffs of the game's original
/// against each candidate. Fails with `CodeRemoval` exactly when either
/// diff deletes something.
pub fn check_no_removal(left_edits: &Vec<Edit>, right_edits: &Vec<Edit>) -> (r: Result<(), ModdingError>)
    ensures
        r is Err <==> (has_deletion(edit_views(left_edits@)) || has_deletion(edit_views(right_edits@))),
        r is Err ==> r == Err::<(), ModdingError>(ModdingError::CodeRemoval),
{
    if deletes_something(left_edits) || deletes_something(right_edits) {
        Err(ModdingError::CodeRemoval)
    } else {
        Ok(())
    }
}

/// The end of a merge through patches: fails with `IncompletePatching`
/// when any patch did not apply; otherwise gives the function that the
/// patched text holds, or `NotALuaFunction` when it holds none.
pub fn finish_patching(text: &str, applied: &Vec<bool>, natives: &Vec<String>) -> (r: Result<LuaFunction, BabaError>)
    ensures
        (exists|i: int| 0 <= i < applied.len() && !applied@[i]) ==> (match r {
            Err(BabaError::Modding(ModdingError::IncompletePatching)) => true,
            _ => false,
        }),
        (forall|i: int| 0 <= i < applied.len() ==> applied@[i]) ==> (match r {
            Ok(f) => parse_function(text@, name_views(natives@)) == Some(f@),
            Err(BabaError::Modding(ModdingError::NotALuaFunction(t))) => t@ == text@ && parse_function(text@, name_views(natives@)) is None,
            _ => false,
        }),
{
    let mut i: usize = 0;
    while i < applied.len()
        invariant
            i <= applied.len(),
            forall|j: int| 0 <= j < i ==> applied@[j],
        decreases applied.len() - i,
    {
        if !applied[i] {
            return Err(BabaError::Modding(ModdingError::IncompletePatching));
        }
        i += 1;
    }
    match LuaFunction::from_code(text, natives) {
        Ok(f) => Ok(f),
        Err(e) => Err(BabaError::Modding(e)),
    }
}

/// What merging a function's code with itself gives: the function that
/// the code holds, or `NotALuaFunction`.
pub open spec fn self_merge_result(code: Seq<char>, natives: Seq<Seq<char>>, r: Result<LuaFunction, BabaError>) -> bool {
    match parse_function(code, natives) {
        Some(f) => r matches Ok(g) && g@ == f,
        None => r matches Err(BabaError::Modding(ModdingError::NotALuaFunction(_))),
    }
}

/// Merges two functions by their code: the diff from the left code to the
/// right code, without its deletions, is patched onto the left code.
/// Whatever the diff engine gives, a merged function's definition is the one
/// its code declares, and the only errors of the library's own are
/// `IncompletePatching` and `NotALuaFunction`. Equal codes merge into the
/// function that the code holds.
fn merge_functions_via_dmp(left: &LuaFunction, right: &LuaFunction, natives: &Vec<String>) -> (r: Result<LuaFunction, BabaError>)
    ensures
        match r {
            Ok(f) => definition_of(f.code@, name_views(natives@)) == Some(f.definition@),
            Err(BabaError::Modding(e)) => e is IncompletePatching || e is NotALuaFunction,
            Err(_) => true,
        },
        left.code@ == right.code@ ==> self_merge_result(left.code@, name_views(natives@), r),
{
    let edits = match diff_edits(left.code.as_str(), right.code.as_str()) {
        Ok(es) => es,
        Err(e) => {
            return Err(BabaError::Dmp(e));
        },
    };
    let kept = strip_deletions(&edits);
    proof {
        lemma_without_deletions(edit_views(edits@));
        if left.code@ == right.code@ {
            if edits@.len() == 1 {
                assert(edit_views(edits@)[0].0 == EditOp::Equal);
            }
            assert(!has_insertion(edit_views(edits@)));
        }
    }
    let patches = match make_patches(left.code.as_str(), &kept) {
        Ok(p) => p,
        Err(e) => {
            return Err(BabaError::Dmp(e));
        },
    };
    let (text, applied) = match apply_patches(&patches, left.code.as_str()) {
        Ok(x) => x,
        Err(e) => {
            return Err(BabaError::Dmp(e));
        },
    };
    finish_patching(text.as_str(), &applied, natives)
}

/// The index of the first of `funcs` with definition `d`.
fn find_original(funcs: &Vec<LuaFunction>, d: &LuaFuncDef) -> (r: Option<usize>)
    ensures
        match r {
            Some(k) => k < funcs.len() && first_with_def(function_views(funcs@), d@, 0) == Some(funcs@[k as int]@),
            None => first_with_def(function_views(funcs@), d@, 0) is None,
        },
{
    let ghost fv = function_views(funcs@);
    let mut i: usize = 0;
    while i < funcs.len()
        invariant
            i <= funcs.len(),
            fv == function_views(funcs@),
            first_with_def(fv, d@, 0) == first_with_def(fv, d@, i as int),
        decreases funcs.len() - i,
    {
        assert(fv[i as int] == funcs@[i as int]@);
        if funcs[i].definition.is_baba_native == d.is_baba_native && funcs[i].definition.name.eq(&d.name) {
            return Some(i);
        }
        i += 1;
    }
    None
}

/// Merges two overrides of one of the game's functions.
///
/// Fails with `NotABabaFunction` when `baba_funcs` holds no function with
/// the left definition, and with `CodeRemoval` when the diff of that
/// original against either candidate deletes something; otherwise merges
/// the two through the diff engine. So a merge only succeeds where the
/// original's code is each candidate's code with some characters taken
/// out: a candidate that drops any of the original is always refused.
pub fn merge_override_functions(
    left: &LuaFunction,
    right: &LuaFunction,
    baba_funcs: &Vec<LuaFunction>,
    natives: &Vec<String>,
) -> (r: Result<LuaFunction, BabaError>)
    ensures
        first_with_def(function_views(baba_funcs@), left.definition@, 0) is None <==> (match r {
            Err(BabaError::Modding(ModdingError::NotABabaFunction)) => true,
            _ => false,
        }),
        match r {
            Ok(f) => definition_of(f.code@, name_views(natives@)) == Some(f.definition@),
            Err(BabaError::Modding(e)) => e is NotABabaFunction || e is CodeRemoval || e is IncompletePatching
                || e is NotALuaFunction,
            Err(_) => true,
        },
        r is Ok ==> (first_with_def(function_views(baba_funcs@), left.definition@, 0) matches Some(o) && is_subseq(
            o.1,
            left.code@,
        ) && is_subseq(o.1, right.code@)),
        (first_with_def(function_views(baba_funcs@), left.definition@, 0) matches Some(o) && o.1 == left.code@
            && right.code@ == left.code@) ==> self_merge_result(left.code@, name_views(natives@), r),
{
    let found = find_original(baba_funcs, &left.definition);
    let original = match found {
        Some(k) => &baba_funcs[k],
        None => {
            return Err(BabaError::Modding(ModdingError::NotABabaFunction));
        },
    };
    let diffs_left = match diff_edits(original.code.as_str(), left.code.as_str()) {
        Ok(es) => es,
        Err(e) => {
            return Err(BabaError::Dmp(e));
        },
    };
    let diffs_right = match diff_edits(original.code.as_str(), right.code.as_str()) {
        Ok(es) => es,
        Err(e) => {
            return Err(BabaError::Dmp(e));
        },
    };
    proof {
        if original.code@ == left.code@ && right.code@ == left.code@ {
            if diffs_left@.len() == 1 {
                assert(edit_views(diffs_left@)[0].0 == EditOp::Equal);
            }
            if diffs_right@.len() == 1 {
                assert(edit_views(diffs_right@)[0].0 == EditOp::Equal);
            }
            assert(!has_deletion(edit_views(diffs_left@)));
            assert(!has_deletion(edit_views(diffs_right@)));
        }
    }
    match check_no_removal(&diffs_left, &diffs_right) {
        Ok(()) => {
            proof {
                lemma_no_deletion_keeps_old(edit_views(diffs_left@));
                lemma_no_deletion_keeps_old(edit_views(diffs_right@));
            }
        },
        Err(e) => {
            return Err(BabaError::Modding(e));
        },
    }
    merge_functions_via_dmp(left, right, natives)
}

/// Merges two injections of one of the game's functions through the diff
/// engine. No deletion check applies: the two need not share an original.
pub fn merge_injected_functions(left: &LuaFunction, right: &LuaFunction, natives: &Vec<String>) -> (r: Result<LuaFunction, BabaError>)
    ensures
        match r {
            Ok(f) => definition_of(f.code@, name_views(natives@)) == Some(f.definition@),
            Err(BabaError::Modding(e)) => e is IncompletePatching || e is NotALuaFunction,
            Err(_) => true,
        },
        left.code@ == right.code@ ==> self_merge_result(left.code@, name_views(natives@), r),
{
    merge_functions_via_dmp(left, right, natives)
}

/// A definition: a name, and whether the game defines it.
pub type DefView = (Seq<char>, bool);

/// The state of a merge: the left text, the right text, and the merged
/// sections so far.
pub type MergeState = (Seq<char>, Seq<char>, Seq<char>);

pub open spec fn left_suffix() -> Seq<char> {
    seq!['_', 'l', 'e', 'f', 't']
}

pub open spec fn right_suffix() -> Seq<char> {
    seq!['_', 'r', 'i', 'g', 'h', 't']
}

/// The line `local alias = name`.
pub open spec fn alias_line(alias: Seq<char>, name: Seq<char>) -> Seq<char> {
    seq!['l', 'o', 'c', 'a', 'l', ' '] + alias + seq![' ', '=', ' '] + name
}

/// The definitions of a script's functions, each once, in order.
pub open spec fn file_defs(f: FileView) -> Seq<DefView> {
    dedup(f.0.map_values(|x: FunctionView| x.0))
}

/// The items of `ls` that `rs` holds, in the order of `ls`.
pub open spec fn common_defs(ls: Seq<DefView>, rs: Seq<DefView>) -> Seq<DefView>
    decreases ls.len(),
{
    if ls.len() == 0 {
        ls
    } else if rs.contains(ls.last()) {
        common_defs(ls.drop_last(), rs).push(ls.last())
    } else {
        common_defs(ls.drop_last(), rs)
    }
}

/// The collisions of two scripts: the definitions that both hold, in the
/// order of the left script.
pub open spec fn collisions(lf: FileView, rf: FileView) -> Seq<DefView> {
    common_defs(file_defs(lf), file_defs(rf))
}

/// What a merge works from: the two scripts, the game's own function
/// names, and the game's own functions.
pub type MergeContext = (FileView, FileView, Seq<Seq<char>>, Seq<FunctionView>);

/// What the diff engine gave for a collision: the merged code, or an error.
pub type DiffOutcome = Result<Seq<char>, BabaError>;

/// One collision resolved from state `st`; `out` is what the diff engine
/// gave, used where both sides override (and the game has the original) or
/// both inject.
pub open spec fn merge_step(st: MergeState, d: DefView, cx: MergeContext, out: DiffOutcome) -> Result<MergeState, BabaError> {
    let lf = cx.0;
    let rf = cx.1;
    let natives = cx.2;
    if !d.1 {
        Ok((replace_all(st.0, d.0, d.0 + left_suffix()), replace_all(st.1, d.0, d.0 + right_suffix()), st.2))
    } else {
        match (first_with_def(functions_of(st.0, natives), d, 0), first_with_def(functions_of(st.1, natives), d, 0)) {
            (Some(lfn), Some(rfn)) => {
                let l2 = replace_all(st.0, lfn.1, Seq::empty());
                let r2 = replace_all(st.1, rfn.1, Seq::empty());
                let li = uses_injection(lf.1, d.0);
                let ri = uses_injection(rf.1, d.0);
                if li && !ri {
                    match alias_of(lf.1, d.0) {
                        None => Err(BabaError::Modding(ModdingError::RenameError)),
                        Some(a) => Ok((l2, r2, st.2 + rfn.1 + newline() + alias_line(a, d.0) + newline() + lfn.1)),
                    }
                } else if !li && ri {
                    match alias_of(rf.1, d.0) {
                        None => Err(BabaError::Modding(ModdingError::RenameError)),
                        Some(a) => Ok((l2, r2, st.2 + lfn.1 + newline() + alias_line(a, d.0) + newline() + rfn.1)),
                    }
                } else if !li && first_with_def(cx.3, d, 0) is None {
                    Err(BabaError::Modding(ModdingError::NotABabaFunction))
                } else {
                    match out {
                        Ok(code) => Ok((l2, r2, st.2 + newline() + code + newline())),
                        Err(e) => Err(e),
                    }
                }
            },
            _ => Ok(st),
        }
    }
}

/// What holds of the diff engine's outcome at a step where it is used:
/// for two overrides, a merged code declares a name and the original is
/// each candidate with characters taken out, the only errors of the
/// library's own are `CodeRemoval`, `IncompletePatching` and
/// `NotALuaFunction`, and candidates identical to the original give the
/// function that their code holds; for two injections, a merged code declares a name,
/// the errors are `IncompletePatching` and `NotALuaFunction`, and equal
/// bodies give the function that the body holds.
pub open spec fn outcome_admissible(st: MergeState, d: DefView, cx: MergeContext, out: DiffOutcome) -> bool {
    let natives = cx.2;
    match (first_with_def(functions_of(st.0, natives), d, 0), first_with_def(functions_of(st.1, natives), d, 0)) {
        (Some(lfn), Some(rfn)) => {
            let li = uses_injection(cx.0.1, d.0);
            let ri = uses_injection(cx.1.1, d.0);
            if !d.1 || li != ri {
                true
            } else if !li {
                match first_with_def(cx.3, d, 0) {
                    None => true,
                    Some(o) => (match out {
                        Ok(code) => definition_of(code, natives) is Some && is_subseq(o.1, lfn.1) && is_subseq(o.1, rfn.1),
                        Err(BabaError::Modding(e)) => e is CodeRemoval || e is IncompletePatching || e is NotALuaFunction,
                        Err(_) => true,
                    }) && (o.1 == lfn.1 && rfn.1 == lfn.1 ==> match parse_function(lfn.1, natives) {
                        Some(f) => out == Ok::<Seq<char>, BabaError>(f.1),
                        None => out matches Err(BabaError::Modding(ModdingError::NotALuaFunction(_))),
                    }),
                }
            } else {
                (match out {
                    Ok(code) => definition_of(code, natives) is Some,
                    Err(BabaError::Modding(e)) => e is IncompletePatching || e is NotALuaFunction,
                    Err(_) => true,
                }) && (lfn.1 == rfn.1 ==> match parse_function(lfn.1, natives) {
                    Some(f) => out == Ok::<Seq<char>, BabaError>(f.1),
                    None => out matches Err(BabaError::Modding(ModdingError::NotALuaFunction(_))),
                })
            }
        },
        _ => true,
    }
}

/// The collisions `cols` resolved in order, from the two whole scripts,
/// with `outs[i]` the diff engine's outcome at collision `i`. The first
/// error stops the merge.
pub open spec fn merge_trace(cols: Seq<DefView>, cx: MergeContext, outs: Seq<DiffOutcome>) -> Result<MergeState, BabaError>
    decreases cols.len(),
{
    if cols.len() == 0 {
        Ok((cx.0.2, cx.1.2, Seq::empty()))
    } else {
        match merge_trace(cols.drop_last(), cx, outs) {
            Ok(st) => merge_step(st, cols.last(), cx, outs[cols.len() - 1]),
            Err(e) => Err(e),
        }
    }
}

/// Each outcome used by the trace is one the diff engine can give.
pub open spec fn trace_admissible(cols: Seq<DefView>, cx: MergeContext, outs: Seq<DiffOutcome>) -> bool
    decreases cols.len(),
{
    if cols.len() == 0 {
        true
    } else {
        trace_admissible(cols.drop_last(), cx, outs) && match merge_trace(cols.drop_last(), cx, outs) {
            Ok(st) => outcome_admissible(st, cols.last(), cx, outs[cols.len() - 1]),
            Err(_) => true,
        }
    }
}

/// The merged text: the left text, the merged sections and the right
/// text, each after a line break, with runs of line breaks collapsed.
pub open spec fn assemble(st: MergeState) -> Seq<char> {
    collapse_newlines(st.0 + newline() + st.2 + newline() + st.1)
}

/// The trace reads only the outcomes of its own collisions.
pub proof fn lemma_trace_outs(cols: Seq<DefView>, cx: MergeContext, o1: Seq<DiffOutcome>, o2: Seq<DiffOutcome>)
    requires
        o1.len() >= cols.len(),
        o2.len() >= cols.len(),
        forall|i: int| 0 <= i < cols.len() ==> o1[i] == o2[i],
    ensures
        merge_trace(cols, cx, o1) == merge_trace(cols, cx, o2),
        trace_admissible(cols, cx, o1) == trace_admissible(cols, cx, o2),
    decreases cols.len(),
{
    if cols.len() > 0 {
        lemma_trace_outs(cols.drop_last(), cx, o1, o2);
        assert(o1[cols.len() - 1] == o2[cols.len() - 1]);
    }
}

pub proof fn lemma_trace_stops(cols: Seq<DefView>, k: int, cx: MergeContext, outs: Seq<DiffOutcome>)
    requires
        0 <= k <= cols.len(),
        merge_trace(cols.take(k), cx, outs) is Err,
        trace_admissible(cols.take(k), cx, outs),
    ensures
        merge_trace(cols, cx, outs) == merge_trace(cols.take(k), cx, outs),
        trace_admissible(cols, cx, outs),
    decreases cols.len() - k,
{
    if k < cols.len() {
        assert(cols.take(k + 1).drop_last() =~= cols.take(k));
        lemma_trace_stops(cols, k + 1, cx, outs);
    } else {
        assert(cols.take(k) =~= cols);
    }
}

pub proof fn lemma_first_with_def(fs: Seq<FunctionView>, d: DefView, i: int)
    requires
        0 <= i,
    ensures
        first_with_def(fs, d, i) matches Some(f) ==> f.0 == d,
    decreases fs.len() - i,
{
    if i < fs.len() && fs[i].0 != d {
        lemma_first_with_def(fs, d, i + 1);
    }
}

/// The collisions of two scripts, in the order of the left one.
pub fn collisions_of(left_file: &LuaFile, right_file: &LuaFile) -> (r: Vec<LuaFuncDef>)
    ensures
        def_views(r@) == collisions(left_file@, right_file@),
{
    let ls = left_file.definitions();
    let rs = right_file.definitions();
    let mut out: Vec<LuaFuncDef> = Vec::new();
    let mut i: usize = 0;
    while i < ls.len()
        invariant
            i <= ls.len(),
            def_views(ls@) == file_defs(left_file@),
            def_views(rs@) == file_defs(right_file@),
            def_views(out@) == common_defs(def_views(ls@).take(i as int), def_views(rs@)),
        decreases ls.len() - i,
    {
        assert(def_views(ls@).take(i + 1).drop_last() =~= def_views(ls@).take(i as int));
        assert(def_views(ls@).take(i + 1).last() == ls@[i as int]@);
        if crate::luafuncdef::contains_def(&rs, &ls[i]) {
            let ghost before = out@;
            let d = &ls[i];
            let c = LuaFuncDef { name: d.name.clone(), is_baba_native: d.is_baba_native };
            out.push(c);
            assert(def_views(out@) =~= def_views(before).push(ls@[i as int]@));
        }
        i += 1;
    }
    assert(def_views(ls@).take(i as int) =~= def_views(ls@));
    out
}

/// Appends `local alias = name` to `out`.
fn push_alias_line(out: &mut Vec<char>, alias: &String, name: &String)
    ensures
        final(out)@ == old(out)@ + alias_line(alias@, name@),
{
    let head = vec!['l', 'o', 'c', 'a', 'l', ' '];
    let mid = vec![' ', '=', ' '];
    append_all(out, &head);
    append_all(out, &chars_of(alias.as_str()));
    append_all(out, &mid);
    append_all(out, &chars_of(name.as_str()));
    assert(final(out)@ =~= old(out)@ + alias_line(alias@, name@));
}

/// Resolves one collision: updates the left text, the right text and the
/// merged sections as `merge_step` says, and gives the diff engine's
/// outcome where it was used.
#[verifier::rlimit(60)]
fn resolve_collision(
    left_file: &LuaFile,
    right_file: &LuaFile,
    baba_funcs: &Vec<LuaFunction>,
    natives: &Vec<String>,
    func: &LuaFuncDef,
    left: &mut Vec<char>,
    right: &mut Vec<char>,
    merged: &mut Vec<char>,
) -> (r: (Result<(), BabaError>, Ghost<DiffOutcome>))
    ensures
        outcome_admissible(
            (old(left)@, old(right)@, old(merged)@),
            func@,
            (left_file@, right_file@, name_views(natives@), function_views(baba_funcs@)),
            r.1@,
        ),
        match merge_step(
            (old(left)@, old(right)@, old(merged)@),
            func@,
            (left_file@, right_file@, name_views(natives@), function_views(baba_funcs@)),
            r.1@,
        ) {
            Ok(st) => r.0 is Ok && (final(left)@, final(right)@, final(merged)@) == st,
            Err(e) => r.0 matches Err(e2) && e2 == e,
        },
{
    let ghost nv = name_views(natives@);
    let ghost mut o: DiffOutcome = Ok(Seq::empty());
    if !func.is_baba_native {
        let name = chars_of(func.name.as_str());
        if name.len() > 0 {
            let mut name_left = chars_of(func.name.as_str());
            append_all(&mut name_left, &vec!['_', 'l', 'e', 'f', 't']);
            let mut name_right = chars_of(func.name.as_str());
            append_all(&mut name_right, &vec!['_', 'r', 'i', 'g', 'h', 't']);
            assert(name_left@ =~= func.name@ + left_suffix());
            assert(name_right@ =~= func.name@ + right_suffix());
            *left = replace_text(left, &name, &name_left);
            *right = replace_text(right, &name, &name_right);
        } else {
            assert(left@.subrange(0, left@.len() as int) =~= left@);
            assert(right@.subrange(0, right@.len() as int) =~= right@);
        }
    } else {
        let lhs = find_function(left, func, natives);
        let rhs = find_function(right, func, natives);
        match (lhs, rhs) {
            (Some(left_func), Some(right_func)) => {
                proof {
                    lemma_first_with_def(functions_of(left@, nv), func@, 0);
                    lemma_first_with_def(functions_of(right@, nv), func@, 0);
                }
                let lcode = chars_of(left_func.code.as_str());
                let rcode = chars_of(right_func.code.as_str());
                if lcode.len() > 0 {
                    *left = remove_all(left, &lcode);
                } else {
                    assert(left@.subrange(0, left@.len() as int) =~= left@);
                }
                if rcode.len() > 0 {
                    *right = remove_all(right, &rcode);
                } else {
                    assert(right@.subrange(0, right@.len() as int) =~= right@);
                }
                let li = left_file.function_uses_injection(func);
                let ri = right_file.function_uses_injection(func);
                if li && !ri {
                    match left_file.injection_data(func) {
                        None => {
                            return (Err(BabaError::Modding(ModdingError::RenameError)), Ghost(o));
                        },
                        Some(alias) => {
                            append_all(merged, &rcode);
                            merged.push('\n');
                            push_alias_line(merged, &alias, &func.name);
                            merged.push('\n');
                            append_all(merged, &lcode);
                        },
                    }
                } else if !li && ri {
                    match right_file.injection_data(func) {
                        None => {
                            return (Err(BabaError::Modding(ModdingError::RenameError)), Ghost(o));
                        },
                        Some(alias) => {
                            append_all(merged, &lcode);
                            merged.push('\n');
                            push_alias_line(merged, &alias, &func.name);
                            merged.push('\n');
                            append_all(merged, &rcode);
                        },
                    }
                } else {
                    let outcome = if !li {
                        merge_override_functions(&left_func, &right_func, baba_funcs, natives)
                    } else {
                        merge_injected_functions(&left_func, &right_func, natives)
                    };
                    match outcome {
                        Ok(new_func) => {
                            proof {
                                o = Ok(new_func.code@);
                            }
                            merged.push('\n');
                            append_all(merged, &chars_of(new_func.code.as_str()));
                            merged.push('\n');
                        },
                        Err(e) => {
                            proof {
                                o = Err(e);
                            }
                            return (Err(e), Ghost(o));
                        },
                    }
                }
            },
            _ => {},
        }
    }
    (Ok(()), Ghost(o))
}

/// Merges two scripts into one.
///
/// Functions defined by one script only are kept as they stand. For each
/// collision, in the order of the left script: a function that the game
/// does not define is renamed to `<name>_left` and `<name>_right` in the
/// respective scripts; where one side injects and the other overrides, the
/// override, the alias line `local <alias> = <name>` and the injection are
/// emitted in that order (`RenameError` when the injecting side has no
/// alias); two overrides or two injections are merged through the diff
/// engine (see `merge_override_functions`, `merge_injected_functions`).
/// The result is the left text, the merged sections and the right text,
/// with runs of line breaks collapsed. The first failure aborts the merge.
pub fn merge_files(
    left_file: &LuaFile,
    right_file: &LuaFile,
    baba_funcs: &Vec<LuaFunction>,
    natives: &Vec<String>,
) -> (r: Result<LuaFile, BabaError>)
    ensures
        exists|outs: Seq<DiffOutcome>|
            outs.len() == collisions(left_file@, right_file@).len() && #[trigger] trace_admissible(
                collisions(left_file@, right_file@),
                (left_file@, right_file@, name_views(natives@), function_views(baba_funcs@)),
                outs,
            ) && match merge_trace(
                collisions(left_file@, right_file@),
                (left_file@, right_file@, name_views(natives@), function_views(baba_funcs@)),
                outs,
            ) {
                Ok(st) => r matches Ok(f) && f@ == crate::luafile::file_of(assemble(st), name_views(natives@)),
                Err(e) => r matches Err(e2) && e2 == e,
            },
        r matches Ok(f) ==> f@ == crate::luafile::file_of(f.code@, name_views(natives@)) && no_blank_run(f.code@),
{
    let ghost nv = name_views(natives@);
    let ghost cx: MergeContext = (left_file@, right_file@, nv, function_views(baba_funcs@));
    let cols = collisions_of(left_file, right_file);
    let ghost cv = def_views(cols@);
    let ghost n = cv.len();
    let mut left = chars_of(left_file.code.as_str());
    let mut right = chars_of(right_file.code.as_str());
    let mut merged: Vec<char> = Vec::new();
    let ghost mut outs: Seq<DiffOutcome> = Seq::empty();
    let mut i: usize = 0;
    assert(cv.take(0) =~= Seq::<DefView>::empty());
    while i < cols.len()
        invariant
            i <= cols.len(),
            n == cols.len(),
            nv == name_views(natives@),
            cx == (left_file@, right_file@, nv, function_views(baba_funcs@)),
            cv == def_views(cols@),
            cv == collisions(left_file@, right_file@),
            outs.len() == i,
            merge_trace(cv.take(i as int), cx, outs) == Ok::<MergeState, BabaError>((left@, right@, merged@)),
            trace_admissible(cv.take(i as int), cx, outs),
        decreases cols.len() - i,
    {
        let func = &cols[i];
        assert(cv.take(i + 1).drop_last() =~= cv.take(i as int));
        assert(cv.take(i + 1).last() == func@);
        let (res, o) = resolve_collision(left_file, right_file, baba_funcs, natives, func, &mut left, &mut right, &mut merged);
        let ghost next = outs.push(o@);
        proof {
            lemma_trace_outs(cv.take(i as int), cx, outs, next);
            assert(next[i as int] == o@);
        }
        match res {
            Ok(()) => {},
            Err(e) => {
                let ghost full = next + Seq::new((n - (i + 1)) as nat, |j: int| o@);
                proof {
                    lemma_trace_outs(cv.take(i + 1), cx, next, full);
                    lemma_trace_stops(cv, i + 1, cx, full);
                }
                return Err(e);
            },
        }
        proof {
            outs = next;
        }
        i += 1;
    }
    assert(cv.take(i as int) =~= cv);
    let ghost fin = (left@, right@, merged@);
    let mut text = left;
    text.push('\n');
    append_all(&mut text, &merged);
    text.push('\n');
    append_all(&mut text, &right);
    assert(text@ =~= fin.0 + newline() + fin.2 + newline() + fin.1);
    let collapsed = collapsed_newlines(&text);
    proof {
        lemma_collapse_no_blank_run(text@);
    }
    Ok(LuaFile::from_chars(&collapsed, natives))
}

} // verus!
