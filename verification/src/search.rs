//! Search engine: substring search and replacement over a text snapshot,
//! driven by a resumable cursor with direction and case-sensitivity options.
//!
//! Case-insensitive matching folds ASCII letters to lower case in both the
//! haystack and the needle before comparison; replacement text is inserted
//! with its casing untouched. Replace-all scans left to right and never
//! rescans text it has already written, so a replacement containing the
//! pattern cannot make it loop.

use vstd::prelude::*;
use vstd::utf8::is_scalar;
use crate::editor::EditorState;
use crate::editor::pushed_snapshot;
use crate::file_ops::FileState;

verus! {

/// Search cursor: pattern, replacement, options, and the character offset
/// where the next search resumes.
pub struct SearchState {
    /// Text to find.
    pub find_text: Vec<char>,
    /// Text to replace matches with.
    pub replace_text: Vec<char>,
    /// Whether matching is case-sensitive.
    pub case_sensitive: bool,
    /// Search direction: true searches down (forward), false up (backward).
    pub search_down: bool,
    /// Character offset where the next search resumes.
    pub search_position: usize,
}

impl Default for SearchState {
    /// A fresh cursor, as [`SearchState::new`] gives.
    fn default() -> (r: SearchState)
        ensures
            r.find_text@ == Seq::<char>::empty(),
            r.replace_text@ == Seq::<char>::empty(),
            r.case_sensitive == false,
            r.search_down == false,
            r.search_position == 0,
    {
        SearchState::new()
    }
}

impl SearchState {
    /// A fresh cursor: empty pattern and replacement, case-insensitive,
    /// searching up, at the start of the text.
    pub fn new() -> (r: SearchState)
        ensures
            r.find_text@ == Seq::<char>::empty(),
            r.replace_text@ == Seq::<char>::empty(),
            r.case_sensitive == false,
            r.search_down == false,
            r.search_position == 0,
    {
        SearchState {
            find_text: Vec::new(),
            replace_text: Vec::new(),
            case_sensitive: false,
            search_down: false,
            search_position: 0,
        }
    }
}

// ---------------------------------------------------------------------------
// Case folding and matching
// ---------------------------------------------------------------------------
/// ASCII case folding of one character: upper-case letters fold to lower
/// case, everything else is unchanged.
pub open spec fn fold_char(c: char) -> char {
    if 0x41 <= c as u32 <= 0x5A {
        ((c as u32 + 32) as char)
    } else {
        c
    }
}

/// ASCII case folding of a text.
pub open spec fn fold_seq(t: Seq<char>) -> Seq<char> {
    Seq::new(t.len(), |i: int| fold_char(t[i]))
}

/// The comparison form of a text: folded unless matching is case-sensitive.
pub open spec fn fold_if(t: Seq<char>, case_sensitive: bool) -> Seq<char> {
    if case_sensitive {
        t
    } else {
        fold_seq(t)
    }
}

/// True when the pattern `p` occurs in `t` starting at offset `i`.
pub open spec fn match_at(t: Seq<char>, p: Seq<char>, i: int) -> bool {
    0 <= i && i + p.len() <= t.len() && t.subrange(i, i + p.len() as int) == p
}

/// The first offset in `[start, end)` where `p` occurs within the window —
/// the match must end by `end` — or `None` when it does not. An empty
/// pattern matches immediately at `start`.
pub open spec fn first_match_in(t: Seq<char>, p: Seq<char>, start: int, end: int) -> Option<int>
    decreases end - start,
{
    if start < 0 || start + p.len() > end || end > t.len() {
        None
    } else if p.len() == 0 || match_at(t, p, start) {
        Some(start)
    } else {
        first_match_in(t, p, start + 1, end)
    }
}

/// The last offset in `[start, end)` where `p` occurs within the window, or
/// `None` when it does not. An empty pattern matches immediately at `end`.
pub open spec fn last_match_in(t: Seq<char>, p: Seq<char>, start: int, end: int) -> Option<int>
    decreases end - start,
{
    if start < 0 || start + p.len() > end || end > t.len() {
        None
    } else if p.len() == 0 || match_at(t, p, end - p.len()) {
        Some(end - p.len())
    } else {
        last_match_in(t, p, start, end - 1)
    }
}

/// The comparison form of a text, computed.
pub fn fold_chars(text: &Vec<char>, case_sensitive: bool) -> (r: Vec<char>)
    ensures
        r@ == fold_if(text@, case_sensitive),
{
    let mut out: Vec<char> = Vec::new();
    let mut i: usize = 0;
    while i < text.len()
        invariant
            i <= text@.len(),
            out@ == fold_if(text@, case_sensitive).subrange(0, i as int),
        decreases text@.len() - i,
    {
        let c = text[i];
        let v = c as u32;
        if !case_sensitive && 0x41 <= v && v <= 0x5A {
            proof {
                assert(is_scalar((v + 32) as u32));
            }
            out.push(char::from_u32(v + 32).unwrap());
        } else {
            out.push(c);
        }
        i = i + 1;
        proof {
            assert(out@ =~= fold_if(text@, case_sensitive).subrange(0, i as int));
        }
    }
    proof {
        assert(out@ =~= fold_if(text@, case_sensitive));
    }
    out
}

/// True when `needle` occurs in `hay` at offset `i`.
fn matches_at(hay: &Vec<char>, needle: &Vec<char>, i: usize) -> (r: bool)
    requires
        i + needle@.len() <= hay@.len(),
    ensures
        r == match_at(hay@, needle@, i as int),
{
    let n = hay.len();
    let m = needle.len();
    let mut j: usize = 0;
    while j < m
        invariant
            j <= m,
            m == needle@.len(),
            n == hay@.len(),
            i + m <= n,
            forall|k: int| 0 <= k < j ==> hay@[i + k] == needle@[k],
        decreases m - j,
    {
        if hay[i + j] != needle[j] {
            proof {
                let sub = hay@.subrange(i as int, i + needle@.len() as int);
                assert(sub[j as int] != needle@[j as int]);
            }
            return false;
        }
        j = j + 1;
    }
    proof {
        assert(hay@.subrange(i as int, i + needle@.len() as int) =~= needle@);
    }
    true
}

/// Finds the first occurrence of `needle` inside `hay[start..end)`.
pub fn find_first(hay: &Vec<char>, needle: &Vec<char>, start: usize, end: usize) -> (r: Option<
    usize,
>)
    requires
        start <= end <= hay@.len(),
    ensures
        first_match_in(hay@, needle@, start as int, end as int) == (match r {
            Some(i) => Some(i as int),
            None => None::<int>,
        }),
        r matches Some(i) ==> start <= i && i + needle@.len() <= end && match_at(
            hay@,
            needle@,
            i as int,
        ) && forall|j: int| start <= j < i ==> !match_at(hay@, needle@, j),
        r is None ==> forall|j: int|
            start <= j && j + needle@.len() <= end ==> !match_at(hay@, needle@, j),
{
    let m = needle.len();
    if m > end - start {
        proof {
            assert forall|j: int| start <= j && j + needle@.len() <= end implies !match_at(
                hay@,
                needle@,
                j,
            ) by {}
        }
        return None;
    }
    if m == 0 {
        proof {
            assert(hay@.subrange(start as int, start as int) =~= needle@);
        }
        return Some(start);
    }
    let mut i = start;
    while i <= end - m
        invariant
            start <= i,
            1 <= m == needle@.len(),
            m <= end - start,
            end <= hay@.len(),
            i + m <= end + 1,
            first_match_in(hay@, needle@, start as int, end as int) == first_match_in(
                hay@,
                needle@,
                i as int,
                end as int,
            ),
            forall|j: int| start <= j < i ==> !match_at(hay@, needle@, j),
        decreases end - i,
    {
        if matches_at(hay, needle, i) {
            return Some(i);
        }
        i = i + 1;
    }
    None
}

/// Finds the last occurrence of `needle` inside `hay[start..end)`.
pub fn rfind_last(hay: &Vec<char>, needle: &Vec<char>, start: usize, end: usize) -> (r: Option<
    usize,
>)
    requires
        start <= end <= hay@.len(),
    ensures
        last_match_in(hay@, needle@, start as int, end as int) == (match r {
            Some(i) => Some(i as int),
            None => None::<int>,
        }),
        r matches Some(i) ==> start <= i && i + needle@.len() <= end && match_at(
            hay@,
            needle@,
            i as int,
        ) && forall|j: int| i < j && j + needle@.len() <= end ==> !match_at(hay@, needle@, j),
        r is None ==> forall|j: int|
            start <= j && j + needle@.len() <= end ==> !match_at(hay@, needle@, j),
{
    let m = needle.len();
    if m > end - start {
        proof {
            assert forall|j: int| start <= j && j + needle@.len() <= end implies !match_at(
                hay@,
                needle@,
                j,
            ) by {}
        }
        return None;
    }
    if m == 0 {
        proof {
            assert(hay@.subrange(end as int, end as int) =~= needle@);
        }
        return Some(end);
    }
    let mut j = end - m;
    loop
        invariant
            start <= j,
            1 <= m == needle@.len(),
            m <= end - start,
            j + m <= end <= hay@.len(),
            last_match_in(hay@, needle@, start as int, end as int) == last_match_in(
                hay@,
                needle@,
                start as int,
                j + m,
            ),
            forall|k: int| j < k && k + needle@.len() <= end ==> !match_at(hay@, needle@, k),
        decreases j,
    {
        if matches_at(hay, needle, j) {
            return Some(j);
        }
        if j == start {
            proof {
                assert(last_match_in(hay@, needle@, start as int, start + m - 1) is None);
            }
            return None;
        }
        j = j - 1;
    }
}

// ---------------------------------------------------------------------------
// Find next
// ---------------------------------------------------------------------------
/// Outcome of one find-next step over the comparison forms `t` (haystack)
/// and `p` (non-empty pattern), resuming at the clamped offset `pos0`: the
/// new resume offset when a match is found, `None` otherwise.
///
/// Searching down takes the first match at or after `pos0`, wrapping around
/// to the first match that ends by `pos0`; the cursor lands just past the
/// match. Searching up takes the last match ending by `pos0`, wrapping
/// around to the last match at or after `pos0`; the cursor lands on the
/// match start.
pub open spec fn found_next(t: Seq<char>, p: Seq<char>, down: bool, pos0: int) -> Option<int> {
    if down {
        match first_match_in(t, p, pos0, t.len() as int) {
            Some(i) => Some(i + p.len()),
            None => match first_match_in(t, p, 0, pos0) {
                Some(i) => Some(i + p.len()),
                None => None,
            },
        }
    } else {
        match last_match_in(t, p, 0, pos0) {
            Some(i) => Some(i),
            None => match last_match_in(t, p, pos0, t.len() as int) {
                Some(i) => Some(i),
                None => None,
            },
        }
    }
}

/// Finds the next occurrence of the cursor's pattern in the document text,
/// in the cursor's direction and under its case policy, wrapping around; on
/// success the resume position advances as [`found_next`] describes. An
/// empty pattern finds nothing. A resume position beyond the end of the text
/// is clamped, never an error.
pub fn find_next(editor: &EditorState, search: &mut SearchState) -> (found: bool)
    ensures
        old(search).find_text@.len() == 0 ==> !found && *final (search) == *old(search),
        old(search).find_text@.len() > 0 ==> ({
            let t = fold_if(editor.text@, old(search).case_sensitive);
            let p = fold_if(old(search).find_text@, old(search).case_sensitive);
            let pos0 = if old(search).search_position <= editor.text@.len() {
                old(search).search_position as int
            } else {
                editor.text@.len() as int
            };
            match found_next(t, p, old(search).search_down, pos0) {
                Some(np) => found && final (search).search_position == np,
                None => !found && final (search).search_position == old(search).search_position,
            }
        }),
        final (search).find_text@ == old(search).find_text@,
        final (search).replace_text@ == old(search).replace_text@,
        final (search).case_sensitive == old(search).case_sensitive,
        final (search).search_down == old(search).search_down,
{
    if search.find_text.len() == 0 {
        return false;
    }
    let cs = search.case_sensitive;
    let hay = fold_chars(&editor.text, cs);
    let needle = fold_chars(&search.find_text, cs);
    let len = hay.len();
    let pos0 = if search.search_position <= len {
        search.search_position
    } else {
        len
    };
    if search.search_down {
        match find_first(&hay, &needle, pos0, len) {
            Some(i) => {
                search.search_position = i + needle.len();
                true
            },
            None => {
                match find_first(&hay, &needle, 0, pos0) {
                    Some(i) => {
                        search.search_position = i + needle.len();
                        true
                    },
                    None => false,
                }
            },
        }
    } else {
        match rfind_last(&hay, &needle, 0, pos0) {
            Some(i) => {
                search.search_position = i;
                true
            },
            None => {
                match rfind_last(&hay, &needle, pos0, len) {
                    Some(i) => {
                        search.search_position = i;
                        true
                    },
                    None => false,
                }
            },
        }
    }
}

// ---------------------------------------------------------------------------
// Replacement
// ---------------------------------------------------------------------------
/// Appends `src[from..to)` onto `dst`.
fn push_range(dst: &mut Vec<char>, src: &Vec<char>, from: usize, to: usize)
    requires
        from <= to <= src@.len(),
    ensures
        final (dst)@ == old(dst)@ + src@.subrange(from as int, to as int),
{
    let mut i = from;
    while i < to
        invariant
            from <= i <= to <= src@.len(),
            dst@ == old(dst)@ + src@.subrange(from as int, i as int),
        decreases to - i,
    {
        dst.push(src[i]);
        i = i + 1;
        proof {
            assert(dst@ =~= old(dst)@ + src@.subrange(from as int, i as int));
        }
    }
}

/// The document text after replacing every occurrence of `pat` (compared
/// under the case policy `cs`), scanning left to right: each match is
/// replaced by `rep` with its casing untouched, and scanning resumes after
/// the inserted replacement, so replaced text is never rescanned.
pub open spec fn replaced_text(t: Seq<char>, pat: Seq<char>, rep: Seq<char>, cs: bool) -> Seq<
    char,
>
    decreases t.len(),
{
    if pat.len() == 0 {
        t
    } else {
        match first_match_in(fold_if(t, cs), fold_if(pat, cs), 0, t.len() as int) {
            None => t,
            Some(i) => {
                if 0 <= i && i + pat.len() <= t.len() {
                    t.subrange(0, i) + rep + replaced_text(t.skip(i + pat.len() as int), pat, rep, cs)
                } else {
                    t
                }
            },
        }
    }
}

/// The number of replacements [`replaced_text`] makes.
pub open spec fn replaced_count(t: Seq<char>, pat: Seq<char>, rep: Seq<char>, cs: bool) -> nat
    decreases t.len(),
{
    if pat.len() == 0 {
        0
    } else {
        match first_match_in(fold_if(t, cs), fold_if(pat, cs), 0, t.len() as int) {
            None => 0,
            Some(i) => {
                if 0 <= i && i + pat.len() <= t.len() {
                    1 + replaced_count(t.skip(i + pat.len() as int), pat, rep, cs)
                } else {
                    0
                }
            },
        }
    }
}

/// There are never more replacements than characters in the text.
pub proof fn lemma_replaced_count_bound(t: Seq<char>, pat: Seq<char>, rep: Seq<char>, cs: bool)
    ensures
        replaced_count(t, pat, rep, cs) <= t.len(),
    decreases t.len(),
{
    if pat.len() > 0 {
        match first_match_in(fold_if(t, cs), fold_if(pat, cs), 0, t.len() as int) {
            None => {},
            Some(i) => {
                if 0 <= i && i + pat.len() <= t.len() {
                    lemma_replaced_count_bound(t.skip(i + pat.len() as int), pat, rep, cs);
                }
            },
        }
    }
}

/// Replaces the first occurrence of the cursor's pattern anywhere in the
/// document — not constrained to the resume position — after taking an undo
/// checkpoint; marks the document modified and moves the resume position
/// just past the inserted replacement. Returns false, changing nothing, when
/// the pattern is empty or absent.
pub fn replace_current(editor: &mut EditorState, file: &mut FileState, search: &mut SearchState)
    -> (replaced: bool)
    ensures
        ({
            let t = fold_if(old(editor).text@, old(search).case_sensitive);
            let p = fold_if(old(search).find_text@, old(search).case_sensitive);
            let m = old(search).find_text@.len();
            if m == 0 || first_match_in(t, p, 0, t.len() as int) is None {
                !replaced && *final (editor) == *old(editor) && *final (file) == *old(file)
                    && *final (search) == *old(search)
            } else {
                let i = first_match_in(t, p, 0, t.len() as int).unwrap();
                &&& replaced
                &&& final (editor).text@ == old(editor).text@.subrange(0, i)
                    + old(search).replace_text@ + old(editor).text@.skip(i + m as int)
                &&& final (editor).undo_history.deep_view() == pushed_snapshot(
                    old(editor).undo_history.deep_view(),
                    old(editor).text@,
                )
                &&& final (editor).redo_history@.len() == 0
                &&& final (editor).cursor_line == old(editor).cursor_line
                &&& final (editor).cursor_column == old(editor).cursor_column
                &&& final (file).is_modified == true
                &&& final (file).file_path@ == old(file).file_path@
                &&& final (file).encoding == old(file).encoding
                &&& final (search).search_position == i + old(search).replace_text@.len()
                &&& final (search).find_text@ == old(search).find_text@
                &&& final (search).replace_text@ == old(search).replace_text@
                &&& final (search).case_sensitive == old(search).case_sensitive
                &&& final (search).search_down == old(search).search_down
            }
        }),
{
    if search.find_text.len() == 0 {
        return false;
    }
    let cs = search.case_sensitive;
    let hay = fold_chars(&editor.text, cs);
    let needle = fold_chars(&search.find_text, cs);
    let len = editor.text.len();
    match find_first(&hay, &needle, 0, len) {
        None => false,
        Some(i) => {
            editor.save_undo_state();
            let m = search.find_text.len();
            let r = search.replace_text.len();
            let mut new_text: Vec<char> = Vec::new();
            push_range(&mut new_text, &editor.text, 0, i);
            push_range(&mut new_text, &search.replace_text, 0, r);
            push_range(&mut new_text, &editor.text, i + m, len);
            let pos = new_text.len() - (len - (i + m));
            editor.text = new_text;
            file.is_modified = true;
            search.search_position = pos;
            proof {
                assert(search.replace_text@.subrange(0, search.replace_text@.len() as int)
                    =~= search.replace_text@);
                assert(old(editor).text@.subrange(i + m, len as int) =~= old(editor).text@.skip(
                    i + m,
                ));
            }
            true
        },
    }
}

/// Replaces every occurrence of the cursor's pattern, scanning left to right
/// without rescanning replaced text, under one undo checkpoint covering the
/// whole batch; marks the document modified when anything was replaced, and
/// returns the replacement count. An empty pattern replaces nothing and
/// changes nothing — not even the undo history.
pub fn replace_all(editor: &mut EditorState, file: &mut FileState, search: &SearchState) -> (count:
    usize)
    ensures
        search.find_text@.len() == 0 ==> count == 0 && *final (editor) == *old(editor)
            && *final (file) == *old(file),
        search.find_text@.len() > 0 ==> ({
            let t0 = old(editor).text@;
            let pat = search.find_text@;
            let rep = search.replace_text@;
            let cs = search.case_sensitive;
            &&& count == replaced_count(t0, pat, rep, cs)
            &&& final (editor).text@ == replaced_text(t0, pat, rep, cs)
            &&& final (editor).undo_history.deep_view() == pushed_snapshot(
                old(editor).undo_history.deep_view(),
                t0,
            )
            &&& final (editor).redo_history@.len() == 0
            &&& final (editor).cursor_line == old(editor).cursor_line
            &&& final (editor).cursor_column == old(editor).cursor_column
            &&& final (file).is_modified == (old(file).is_modified || count > 0)
            &&& final (file).file_path@ == old(file).file_path@
            &&& final (file).encoding == old(file).encoding
        }),
{
    if search.find_text.len() == 0 {
        return 0;
    }
    editor.save_undo_state();
    let ghost t0 = editor.text@;
    let cs = search.case_sensitive;
    let needle = fold_chars(&search.find_text, cs);
    let m = search.find_text.len();
    let n0 = editor.text.len();
    proof {
        lemma_replaced_count_bound(t0, search.find_text@, search.replace_text@, cs);
    }
    let mut rest: Vec<char> = Vec::new();
    core::mem::swap(&mut editor.text, &mut rest);
    let mut done: Vec<char> = Vec::new();
    let mut count: usize = 0;
    proof {
        assert(Seq::<char>::empty() + replaced_text(t0, search.find_text@, search.replace_text@, cs)
            =~= replaced_text(t0, search.find_text@, search.replace_text@, cs));
    }
    loop
        invariant
            1 <= m == search.find_text@.len(),
            needle@ == fold_if(search.find_text@, cs),
            cs == search.case_sensitive,
            replaced_count(t0, search.find_text@, search.replace_text@, cs) <= t0.len()
                <= usize::MAX,
            replaced_text(t0, search.find_text@, search.replace_text@, cs) == done@
                + replaced_text(rest@, search.find_text@, search.replace_text@, cs),
            replaced_count(t0, search.find_text@, search.replace_text@, cs) == count
                + replaced_count(rest@, search.find_text@, search.replace_text@, cs),
        ensures
            replaced_text(t0, search.find_text@, search.replace_text@, cs) == done@ + rest@,
            replaced_count(t0, search.find_text@, search.replace_text@, cs) == count,
        decreases rest@.len(),
    {
        let ghost done0 = done@;
        let ghost rest0 = rest@;
        let hay = fold_chars(&rest, cs);
        let found = find_first(&hay, &needle, 0, rest.len());
        match found {
            None => {
                proof {
                    assert(replaced_text(rest@, search.find_text@, search.replace_text@, cs)
                        == rest@);
                    assert(replaced_count(rest@, search.find_text@, search.replace_text@, cs)
                        == 0);
                }
                break ;
            },
            Some(i) => {
                let mut tail = rest.split_off(i + m);
                rest.truncate(i);
                done.append(&mut rest);
                let r = search.replace_text.len();
                push_range(&mut done, &search.replace_text, 0, r);
                rest = tail;
                count = count + 1;
                proof {
                    assert(rest@ =~= rest0.skip(i + m));
                    assert(search.replace_text@.subrange(0, r as int) =~= search.replace_text@);
                    assert(done@ =~= done0 + (rest0.subrange(0, i as int) + search.replace_text@));
                    assert(done@ + replaced_text(rest@, search.find_text@, search.replace_text@, cs)
                        =~= done0 + replaced_text(
                        rest0,
                        search.find_text@,
                        search.replace_text@,
                        cs,
                    ));
                }
            },
        }
    }
    done.append(&mut rest);
    editor.text = done;
    if count > 0 {
        file.is_modified = true;
    }
    count
}

} // verus!
