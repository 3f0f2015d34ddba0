//! A game written down in a file, so that adding one is not a fork.
//!
//! ```text
//! # Assetto Corsa. Sizes are Competizione's, which are the larger.
//! acpmf_physics:2048
//! acpmf_graphics:2048
//! acpmf_static:2048
//! acpmf_crewchief:15660
//!
//! heartbeat acpmf_physics
//! ```
//!
//! Blank lines and everything after a `#` are ignored. A bare `NAME:SIZE` is a
//! page, in exactly the syntax `--page` takes. `heartbeat NAME` names the
//! block that changes while the program is alive.

use crate::page::{
    Page, PageView, bad_page_message, distinct_names, is_valid_page,
    lemma_parsed_page_is_valid, pages_view, parse_page,
};
use crate::text::{
    chars_of, decimal, decimal_of, is_white, lines, lines_of, owned, push_all, push_str, same,
    slice, split_first, split_once, string_of, trim, trimmed, white,
};
use vstd::prelude::*;

verus! {

/// A game, read out of a file.
#[derive(Debug, PartialEq, Eq)]
pub struct Recipe {
    /// The pages to publish.
    pub pages: Vec<Page>,
    /// The block that proves the program is alive, if it says.
    pub heartbeat: Option<String>,
}

/// What a recipe says.
pub struct RecipeView {
    pub pages: Seq<PageView>,
    pub heartbeat: Option<Seq<char>>,
}

impl View for Recipe {
    type V = RecipeView;

    open spec fn view(&self) -> RecipeView {
        RecipeView {
            pages: pages_view(self.pages@),
            heartbeat: match self.heartbeat {
                Some(h) => Some(h@),
                None => None,
            },
        }
    }
}

/// Why a recipe could not be read, and which line was at fault.
#[derive(Debug, Clone, PartialEq, Eq)]
pub struct BadRecipe {
    /// The line number, counting from one, as an editor shows it.
    pub line: usize,
    /// What was wrong.
    pub why: String,
}

impl BadRecipe {
    /// `line N: why`, as it is shown to somebody editing the file.
    pub fn message(&self) -> (r: String)
        ensures
            r@ == "line "@ + decimal(self.line as nat) + ": "@ + self.why@,
    {
        let mut s = owned("line ");
        push_all(&mut s, &decimal_of(self.line as u128));
        push_str(&mut s, ": ");
        push_str(&mut s, self.why.as_str());
        s
    }
}

/// A line with its comment cut off and its ends trimmed.
pub open spec fn line_content(raw: Seq<char>) -> Seq<char> {
    match split_once(raw, '#') {
        Some((before, _)) => trim(before),
        None => trim(raw),
    }
}

/// What follows the word `heartbeat`, if the line is that directive: the
/// whole word, followed by nothing or by white space — `heartbeatish:16` is a
/// page.
pub open spec fn directive_rest(content: Seq<char>) -> Option<Seq<char>> {
    let word = "heartbeat"@;
    if content.len() >= word.len() && content.take(word.len() as int) == word && (content.len()
        == word.len() || is_white(content[word.len() as int])) {
        Some(content.skip(word.len() as int))
    } else {
        None
    }
}

/// Whether a page of this name is in a list.
pub open spec fn names_page(pages: Seq<PageView>, name: Seq<char>) -> bool {
    exists|i: int| 0 <= i < pages.len() && (#[trigger] pages[i]).name == name
}

/// What has been read of a recipe so far.
pub struct RecipeScan {
    pub pages: Seq<PageView>,
    pub heartbeat: Option<Seq<char>>,
}

/// One line of a recipe, numbered from one.
pub open spec fn recipe_line(st: RecipeScan, number: nat, raw: Seq<char>) -> Result<
    RecipeScan,
    (nat, Seq<char>),
> {
    let content = line_content(raw);
    if content.len() == 0 {
        Ok(st)
    } else {
        match directive_rest(content) {
            Some(rest) => {
                let name = trim(rest);
                if name.len() == 0 {
                    Err((number, "heartbeat needs the name of a block"@))
                } else if st.heartbeat is Some {
                    Err(
                        (
                            number,
                            "a second heartbeat — only one block can prove the program is alive"@,
                        ),
                    )
                } else {
                    Ok(RecipeScan { heartbeat: Some(name), ..st })
                }
            },
            None => match parse_page(content) {
                Err(why) => Err((number, content + ": "@ + bad_page_message(why))),
                Ok(page) => if names_page(st.pages, page.name) {
                    Err((number, page.name + " was already asked for"@))
                } else {
                    Ok(RecipeScan { pages: st.pages.push(page), ..st })
                },
            },
        }
    }
}

/// Every line of a recipe, read in order.
pub open spec fn recipe_lines(ls: Seq<Seq<char>>) -> Result<RecipeScan, (nat, Seq<char>)>
    decreases ls.len(),
{
    if ls.len() == 0 {
        Ok(RecipeScan { pages: seq![], heartbeat: None })
    } else {
        match recipe_lines(ls.drop_last()) {
            Err(e) => Err(e),
            Ok(st) => recipe_line(st, ls.len(), ls.last()),
        }
    }
}

/// A recipe, read: every line, and then a heartbeat that is one of the
/// pages, and at least one page. A complaint about the whole file is placed
/// at its last line.
pub open spec fn parse_recipe(text: Seq<char>) -> Result<RecipeView, (nat, Seq<char>)> {
    let ls = lines(text);
    let last = if ls.len() > 0 {
        ls.len()
    } else {
        1
    };
    match recipe_lines(ls) {
        Err(e) => Err(e),
        Ok(st) => match st.heartbeat {
            Some(name) if !names_page(st.pages, name) => Err(
                (last, "heartbeat "@ + name + " is not one of the pages this file publishes"@),
            ),
            _ => if st.pages.len() == 0 {
                Err((last, "no pages in this file"@))
            } else {
                Ok(RecipeView { pages: st.pages, heartbeat: st.heartbeat })
            },
        },
    }
}

fn content_of(raw: &Vec<char>) -> (r: Vec<char>)
    ensures
        r@ == line_content(raw@),
{
    match split_first(raw, '#') {
        Some((before, _)) => trimmed(&before),
        None => trimmed(raw),
    }
}

fn directive(content: &Vec<char>) -> (r: Option<Vec<char>>)
    ensures
        match r {
            Some(rest) => directive_rest(content@) == Some(rest@),
            None => directive_rest(content@) is None,
        },
{
    let word = chars_of("heartbeat");
    let n = word.len();
    if content.len() < n {
        return None;
    }
    let head = slice(content, 0, n);
    assert(head@ =~= content@.take(n as int));
    if !same(&head, &word) {
        return None;
    }
    if content.len() == n || white(content[n]) {
        let rest = slice(content, n, content.len());
        assert(rest@ =~= content@.skip(n as int));
        Some(rest)
    } else {
        None
    }
}

/// Whether a page of this name is already in the list.
pub fn has_page(pages: &Vec<Page>, name: &String) -> (r: bool)
    ensures
        r == names_page(pages_view(pages@), name@),
{
    let mut i: usize = 0;
    while i < pages.len()
        invariant
            i <= pages.len(),
            forall|j: int| 0 <= j < i ==> (#[trigger] pages@[j]).name@ != name@,
        decreases pages.len() - i,
    {
        if pages[i].name == *name {
            assert(pages_view(pages@)[i as int].name == name@);
            return true;
        }
        i += 1;
    }
    assert forall|j: int| 0 <= j < pages_view(pages@).len() implies (
    #[trigger] pages_view(pages@)[j]).name != name@ by {
        assert(pages_view(pages@)[j] == pages@[j]@);
    }
    false
}

proof fn lemma_recipe_step(ls: Seq<Seq<char>>, k: int)
    requires
        0 <= k < ls.len(),
    ensures
        recipe_lines(ls.take(k + 1)) == (match recipe_lines(ls.take(k)) {
            Err(e) => Err(e),
            Ok(st) => recipe_line(st, (k + 1) as nat, ls[k]),
        }),
{
    let next = ls.take(k + 1);
    assert(next.drop_last() =~= ls.take(k));
    assert(next.last() == ls[k]);
}

proof fn lemma_recipe_stays_refused(ls: Seq<Seq<char>>, k: int, e: (nat, Seq<char>))
    requires
        0 <= k <= ls.len(),
        recipe_lines(ls.take(k)) == Err::<RecipeScan, (nat, Seq<char>)>(e),
    ensures
        recipe_lines(ls) == Err::<RecipeScan, (nat, Seq<char>)>(e),
    decreases ls.len() - k,
{
    if k < ls.len() {
        lemma_recipe_step(ls, k);
        lemma_recipe_stays_refused(ls, k + 1, e);
    } else {
        assert(ls.take(k) =~= ls);
    }
}

fn refused(line: usize, why: String) -> (r: Result<Recipe, BadRecipe>)
    ensures
        r matches Err(b) && b.line == line && b.why@ == why@,
{
    Err(BadRecipe { line, why })
}

/// Read a recipe.
///
/// The line number travels with every complaint, because the whole point of
/// putting this in a file is that somebody edits the file.
pub fn parse(text: &str) -> (r: Result<Recipe, BadRecipe>)
    ensures
        match r {
            Ok(recipe) => parse_recipe(text@) == Ok::<RecipeView, (nat, Seq<char>)>(recipe@),
            Err(bad) => parse_recipe(text@) == Err::<RecipeView, (nat, Seq<char>)>(
                (bad.line as nat, bad.why@),
            ),
        },
{
    let v = chars_of(text);
    let all = lines_of(&v);
    let ghost ls = all.deep_view();
    let mut pages: Vec<Page> = Vec::new();
    let mut heartbeat: Option<String> = None;
    let mut at: usize = 0;
    assert(ls.take(0) =~= Seq::<Seq<char>>::empty());
    assert(pages_view(pages@) =~= Seq::<PageView>::empty());
    while at < all.len()
        invariant
            at <= all.len(),
            ls == all.deep_view(),
            ls == lines(text@),
            recipe_lines(ls.take(at as int)) == Ok::<RecipeScan, (nat, Seq<char>)>(
                RecipeScan {
                    pages: pages_view(pages@),
                    heartbeat: match heartbeat {
                        Some(h) => Some(h@),
                        None => None,
                    },
                },
            ),
        decreases all.len() - at,
    {
        let raw = &all[at];
        let line = at + 1;
        assert(ls[at as int] == raw.deep_view());
        assert(raw.deep_view() =~= raw@);
        proof {
            lemma_recipe_step(ls, at as int);
        }
        let content = content_of(raw);
        if content.len() == 0 {
            at += 1;
            continue;
        }
        match directive(&content) {
            Some(rest) => {
                let name = trimmed(&rest);
                if name.len() == 0 {
                    let r = refused(line, owned("heartbeat needs the name of a block"));
                    proof {
                        lemma_recipe_stays_refused(ls, at + 1, (line as nat, r->Err_0.why@));
                    }
                    return r;
                }
                if heartbeat.is_some() {
                    let r = refused(
                        line,
                        owned("a second heartbeat — only one block can prove the program is alive"),
                    );
                    proof {
                        lemma_recipe_stays_refused(ls, at + 1, (line as nat, r->Err_0.why@));
                    }
                    return r;
                }
                heartbeat = Some(string_of(&name));
            },
            None => {
                let page = match Page::parse_chars(&content) {
                    Ok(page) => page,
                    Err(why) => {
                        let mut said = string_of(&content);
                        push_str(&mut said, ": ");
                        let m = why.message();
                        push_str(&mut said, m.as_str());
                        let r = refused(line, said);
                        proof {
                            lemma_recipe_stays_refused(ls, at + 1, (line as nat, r->Err_0.why@));
                        }
                        return r;
                    },
                };
                if has_page(&pages, &page.name) {
                    let mut said = page.name.clone();
                    push_str(&mut said, " was already asked for");
                    let r = refused(line, said);
                    proof {
                        lemma_recipe_stays_refused(ls, at + 1, (line as nat, r->Err_0.why@));
                    }
                    return r;
                }
                let ghost before = pages@;
                pages.push(page);
                assert(pages_view(pages@) =~= pages_view(before).push(page@));
            },
        }
        at += 1;
    }
    assert(ls.take(at as int) =~= ls);
    let last: usize = if all.len() > 0 {
        all.len()
    } else {
        1
    };
    match &heartbeat {
        Some(name) => {
            if !has_page(&pages, name) {
                let mut said = owned("heartbeat ");
                push_str(&mut said, name.as_str());
                push_str(&mut said, " is not one of the pages this file publishes");
                return refused(last, said);
            }
        },
        None => {},
    }
    if pages.len() == 0 {
        return refused(last, owned("no pages in this file"));
    }
    Ok(Recipe { pages, heartbeat })
}

/// Every page read so far is valid and named once.
proof fn lemma_scan_is_sound(ls: Seq<Seq<char>>)
    ensures
        recipe_lines(ls) matches Ok(st) ==> distinct_names(st.pages) && forall|i: int|
            0 <= i < st.pages.len() ==> is_valid_page(#[trigger] st.pages[i]),
    decreases ls.len(),
{
    if ls.len() > 0 {
        lemma_scan_is_sound(ls.drop_last());
        lemma_parsed_page_is_valid(line_content(ls.last()));
        match recipe_lines(ls.drop_last()) {
            Err(_) => {},
            Ok(st) => {
                match recipe_line(st, ls.len(), ls.last()) {
                    Err(_) => {},
                    Ok(next) => {
                        if next.pages.len() > st.pages.len() {
                            let page = next.pages.last();
                            assert(next.pages == st.pages.push(page));
                            assert forall|i: int, j: int|
                                0 <= i < j < next.pages.len() implies (#[trigger] next.pages[i]).name
                                != (#[trigger] next.pages[j]).name by {
                                if j == next.pages.len() - 1 {
                                    assert(next.pages[i] == st.pages[i]);
                                    if next.pages[i].name == page.name {
                                        assert(names_page(st.pages, page.name));
                                    }
                                } else {
                                    assert(next.pages[i] == st.pages[i]);
                                    assert(next.pages[j] == st.pages[j]);
                                }
                            }
                            assert forall|i: int| 0 <= i < next.pages.len() implies is_valid_page(
                                #[trigger] next.pages[i],
                            ) by {
                                if i < st.pages.len() {
                                    assert(next.pages[i] == st.pages[i]);
                                }
                            }
                        }
                    },
                }
            },
        }
    }
}

/// **A recipe that reads is one the program can publish**: at least one
/// page, no page named twice, every page one `--page` would accept, and a
/// heartbeat, when it names one, that is one of its own pages.
pub proof fn lemma_a_read_recipe_is_sound(text: Seq<char>)
    ensures
        parse_recipe(text) matches Ok(r) ==> {
            &&& r.pages.len() > 0
            &&& distinct_names(r.pages)
            &&& forall|i: int| 0 <= i < r.pages.len() ==> is_valid_page(#[trigger] r.pages[i])
            &&& r.heartbeat matches Some(h) ==> names_page(r.pages, h)
        },
{
    lemma_scan_is_sound(lines(text));
}

/// **Any of its pages can be a recipe's heartbeat**: when every line of a
/// file reads, giving at least one page, and the heartbeat, if one is
/// named, is the name of any one of those pages — the first or another —
/// the file is accepted with exactly those pages and that heartbeat.
pub proof fn lemma_any_page_can_be_the_heartbeat(text: Seq<char>, k: int)
    requires
        recipe_lines(lines(text)) is Ok,
        recipe_lines(lines(text))->Ok_0.pages.len() > 0,
        0 <= k < recipe_lines(lines(text))->Ok_0.pages.len(),
        recipe_lines(lines(text))->Ok_0.heartbeat matches Some(h) ==> h
            == recipe_lines(lines(text))->Ok_0.pages[k].name,
    ensures
        parse_recipe(text) == Ok::<RecipeView, (nat, Seq<char>)>(
            RecipeView {
                pages: recipe_lines(lines(text))->Ok_0.pages,
                heartbeat: recipe_lines(lines(text))->Ok_0.heartbeat,
            },
        ),
{
    let st = recipe_lines(lines(text))->Ok_0;
    if st.heartbeat is Some {
        assert(names_page(st.pages, st.pages[k].name));
    }
}

} // verus!
