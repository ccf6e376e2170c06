use vstd::prelude::*;

use crate::category::{label_of, Category};
use crate::command::BentoCommand;
use crate::scan::{
    after_last, all_name_chars, before_first, begins_with, first_found, first_word, first_word_of, found_at,
    has_char, name_chars, split_first, split_last, starts_with, strip_prefix_copies,
    strip_prefixes, string_from, trim_both, trim_chars, Strip,
};
use crate::text::chars_of;

verus! {

/// A listing whose lines name commands: the output of a package manager or
/// of a shell.
#[derive(Debug, Clone, Copy, PartialEq, Eq, Structural)]
pub enum Listing {
    /// `brew list --formula`: one formula per line.
    Homebrew,
    /// `brew list --cask`: one cask per line.
    Cask,
    /// `pip list --format=freeze`: `name==version` lines.
    Pip,
    /// `npm list -g --depth=0 --parseable`: one install path per line.
    Npm,
    /// `yarn global list`: `info name@version ...` lines.
    Yarn,
    /// `cargo install --list`: `name vX.Y.Z:` lines, each followed by
    /// indented binaries.
    Cargo,
    /// `go list -m all`: module paths, each followed by its version.
    Go,
    /// A shell's `alias` builtin run through `sh -c`.
    Alias,
    /// A list of shell function names.
    Function,
    /// The `alias` builtin of the user's own interactive shell.
    LoginAlias,
    /// zsh's `${(k)functions}` in the user's own interactive shell.
    ZshFunction,
}

/// The category that the names of a listing belong to.
pub open spec fn category_of(l: Listing) -> Category {
    match l {
        Listing::Homebrew => Category::Homebrew,
        Listing::Cask => Category::Cask,
        Listing::Pip => Category::Pip,
        Listing::Npm => Category::Npm,
        Listing::Yarn => Category::Yarn,
        Listing::Cargo => Category::Cargo,
        Listing::Go => Category::Go,
        Listing::Alias | Listing::LoginAlias => Category::Alias,
        Listing::Function | Listing::ZshFunction => Category::Function,
    }
}

/// The part of an `alias` line that names the alias: what stands before the
/// first `=`, without the leading `alias ` words and surrounding white space.
pub open spec fn alias_part(line: Seq<char>) -> Seq<char> {
    let head = before_first(line, seq!['=']);
    trim_both(strip_prefixes(head, seq!['a', 'l', 'i', 'a', 's', ' ']), Strip::Space)
}

/// Whether a line can define an alias: it holds `=` and is not blank.
pub open spec fn alias_line(line: Seq<char>) -> bool {
    line.contains('=') && trim_both(line, Strip::Space).len() > 0
}

/// The name that one line of a listing gives, if it gives one.
pub open spec fn listed_name(l: Listing, line: Seq<char>) -> Option<Seq<char>> {
    match l {
        Listing::Homebrew | Listing::Cask => {
            let n = trim_both(line, Strip::Space);
            if n.len() > 0 { Some(n) } else { None }
        },
        Listing::Pip => {
            let n = before_first(line, seq!['=', '=']);
            if n.len() > 0 { Some(n) } else { None }
        },
        Listing::Npm => {
            let n = after_last(line, '/');
            if n != seq!['l', 'i', 'b'] && n.len() > 0 { Some(n) } else { None }
        },
        Listing::Yarn => {
            let info = seq!['i', 'n', 'f', 'o', ' '];
            let n = strip_prefixes(before_first(line, seq!['@']), info);
            if begins_with(line, info) && line.contains('@') && n.len() > 0 {
                Some(n)
            } else {
                None
            }
        },
        Listing::Cargo => {
            if !begins_with(line, seq![' ']) && exists|i: int| found_at(line, seq![' ', 'v'], i) {
                Some(before_first(line, seq![' ', 'v']))
            } else {
                None
            }
        },
        Listing::Go => match first_word(line) {
            Some(w) => {
                let n = after_last(w, '/');
                if w.contains('/') && n.len() > 0 { Some(n) } else { None }
            },
            None => None,
        },
        Listing::Alias => {
            let n = alias_part(line);
            if alias_line(line) && n.len() > 0 && n[0] != '-' { Some(n) } else { None }
        },
        Listing::Function => {
            let n = trim_both(line, Strip::Space);
            if n.len() > 0 && !n.contains(' ') && n[0] != '_' { Some(n) } else { None }
        },
        Listing::LoginAlias => {
            let n = trim_both(trim_both(alias_part(line), Strip::Char('\'')), Strip::Char('"'));
            if alias_line(line) && n.len() > 0 && name_chars(n, seq!['_', '-', '~', '.']) {
                Some(n)
            } else {
                None
            }
        },
        Listing::ZshFunction => {
            let n = trim_both(line, Strip::Space);
            if n.len() > 0 && n[0] != '_' && name_chars(n, seq!['_', '-']) { Some(n) } else { None }
        },
    }
}

/// The names that the lines of a listing give, in order.
pub open spec fn listed_names(l: Listing, lines: Seq<Seq<char>>) -> Seq<Seq<char>>
    decreases lines.len(),
{
    if lines.len() == 0 {
        Seq::empty()
    } else {
        let rest = listed_names(l, lines.drop_last());
        match listed_name(l, lines.last()) {
            Some(n) => rest.push(n),
            None => rest,
        }
    }
}

/// A line never gives an empty name.
pub proof fn lemma_listed_name_not_empty(l: Listing, line: Seq<char>)
    ensures
        listed_name(l, line) matches Some(n) ==> n.len() > 0,
{
    if l == Listing::Cargo && listed_name(l, line) is Some {
        let sep = seq![' ', 'v'];
        let w = choose|i: int| found_at(line, sep, i);
        lemma_first_found_exists(line, sep, w);
        let i = choose|i: int| first_found(line, sep, i);
        if i == 0 {
            assert(line.subrange(0, 2)[0] == line[0]);
            assert(line.subrange(0, 1) =~= seq![' ']);
        }
    }
}

proof fn lemma_first_found_exists(s: Seq<char>, pat: Seq<char>, i: int)
    requires
        found_at(s, pat, i),
    ensures
        exists|k: int| first_found(s, pat, k),
    decreases i,
{
    if exists|j: int| j < i && #[trigger] found_at(s, pat, j) {
        let j = choose|j: int| j < i && #[trigger] found_at(s, pat, j);
        lemma_first_found_exists(s, pat, j);
    } else {
        assert(first_found(s, pat, i));
    }
}

impl Listing {
    /// The category that this listing's names belong to.
    pub fn category(&self) -> (r: Category)
        ensures
            r == category_of(*self),
    {
        match self {
            Listing::Homebrew => Category::Homebrew,
            Listing::Cask => Category::Cask,
            Listing::Pip => Category::Pip,
            Listing::Npm => Category::Npm,
            Listing::Yarn => Category::Yarn,
            Listing::Cargo => Category::Cargo,
            Listing::Go => Category::Go,
            Listing::Alias | Listing::LoginAlias => Category::Alias,
            Listing::Function | Listing::ZshFunction => Category::Function,
        }
    }
}

fn alias_part_of(line: &Vec<char>) -> (r: Vec<char>)
    ensures
        r@ == alias_part(line@),
{
    let eq = vec!['='];
    let word = vec!['a', 'l', 'i', 'a', 's', ' '];
    assert(eq@ =~= seq!['=']);
    assert(word@ =~= seq!['a', 'l', 'i', 'a', 's', ' ']);
    let (head, _) = split_first(line, &eq);
    let bare = strip_prefix_copies(&head, &word);
    trim_chars(&bare, Strip::Space)
}

fn is_alias_line(line: &Vec<char>) -> (r: bool)
    ensures
        r == alias_line(line@),
{
    has_char(line, '=') && trim_chars(line, Strip::Space).len() > 0
}

fn some_if(ok: bool, n: Vec<char>) -> (r: Option<Vec<char>>)
    ensures
        ok ==> r == Some(n),
        !ok ==> r is None,
{
    if ok {
        Some(n)
    } else {
        None
    }
}

/// The name that `line` of listing `l` gives, if it gives one.
pub fn name_in_line(l: Listing, line: &str) -> (r: Option<String>)
    ensures
        r matches Some(n) ==> listed_name(l, line@) == Some(n@),
        r is None ==> listed_name(l, line@) is None,
{
    let s = chars_of(line);
    let found = match l {
        Listing::Homebrew | Listing::Cask => {
            let n = trim_chars(&s, Strip::Space);
            let ok = n.len() > 0;
            some_if(ok, n)
        },
        Listing::Pip => {
            let eq = vec!['=', '='];
            assert(eq@ =~= seq!['=', '=']);
            let n = split_first(&s, &eq).0;
            let ok = n.len() > 0;
            some_if(ok, n)
        },
        Listing::Npm => {
            let n = split_last(&s, '/');
            let lib = vec!['l', 'i', 'b'];
            assert(lib@ =~= seq!['l', 'i', 'b']);
            let ok = !crate::text::same_chars(&n, &lib) && n.len() > 0;
            some_if(ok, n)
        },
        Listing::Yarn => {
            let info = vec!['i', 'n', 'f', 'o', ' '];
            let at = vec!['@'];
            assert(info@ =~= seq!['i', 'n', 'f', 'o', ' ']);
            assert(at@ =~= seq!['@']);
            let (head, _) = split_first(&s, &at);
            let n = strip_prefix_copies(&head, &info);
            let ok = starts_with(&s, &info) && has_char(&s, '@') && n.len() > 0;
            some_if(ok, n)
        },
        Listing::Cargo => {
            let sep = vec![' ', 'v'];
            let space = vec![' '];
            assert(sep@ =~= seq![' ', 'v']);
            assert(space@ =~= seq![' ']);
            let (head, has_v) = split_first(&s, &sep);
            let ok = !starts_with(&s, &space) && has_v;
            some_if(ok, head)
        },
        Listing::Go => match first_word_of(&s) {
            Some(w) => {
                let n = split_last(&w, '/');
                let ok = has_char(&w, '/') && n.len() > 0;
                some_if(ok, n)
            },
            None => None,
        },
        Listing::Alias => {
            let n = alias_part_of(&s);
            let ok = is_alias_line(&s) && n.len() > 0 && n[0] != '-';
            some_if(ok, n)
        },
        Listing::Function => {
            let n = trim_chars(&s, Strip::Space);
            let ok = n.len() > 0 && !has_char(&n, ' ') && n[0] != '_';
            some_if(ok, n)
        },
        Listing::LoginAlias => {
            let n = trim_chars(
                &trim_chars(&alias_part_of(&s), Strip::Char('\'')),
                Strip::Char('"'),
            );
            let extra = vec!['_', '-', '~', '.'];
            assert(extra@ =~= seq!['_', '-', '~', '.']);
            let ok = is_alias_line(&s) && n.len() > 0 && all_name_chars(&n, &extra);
            some_if(ok, n)
        },
        Listing::ZshFunction => {
            let n = trim_chars(&s, Strip::Space);
            let extra = vec!['_', '-'];
            assert(extra@ =~= seq!['_', '-']);
            let ok = n.len() > 0 && n[0] != '_' && all_name_chars(&n, &extra);
            some_if(ok, n)
        },
    };
    assert(found matches Some(n) ==> listed_name(l, line@) == Some(n@));
    assert(found is None ==> listed_name(l, line@) is None);
    match found {
        Some(n) => Some(string_from(&n)),
        None => None,
    }
}

/// The commands that the lines of listing `l` name, in order, each under
/// the listing's category.
pub fn commands_from_lines(l: Listing, lines: &Vec<String>) -> (r: Vec<BentoCommand>)
    ensures
        r@.len() == listed_names(l, lines@.map_values(|s: String| s@)).len(),
        forall|j: int|
            0 <= j < r@.len() ==> (#[trigger] r@[j]).name@ == listed_names(
                l,
                lines@.map_values(|s: String| s@),
            )[j] && r@[j].category@ == label_of(category_of(l)),
{
    let ghost views = lines@.map_values(|s: String| s@);
    let label = l.category().label();
    let mut out: Vec<BentoCommand> = Vec::new();
    let mut i: usize = 0;
    while i < lines.len()
        invariant
            i <= lines.len(),
            views == lines@.map_values(|s: String| s@),
            label@ == label_of(category_of(l)),
            out@.len() == listed_names(l, views.subrange(0, i as int)).len(),
            forall|j: int|
                0 <= j < out@.len() ==> (#[trigger] out@[j]).name@ == listed_names(
                    l,
                    views.subrange(0, i as int),
                )[j] && out@[j].category@ == label@,
            forall|j: int| 0 <= j < out@.len() ==> (#[trigger] out@[j]).name@.len() > 0,
        decreases lines.len() - i,
    {
        let ghost before = views.subrange(0, i as int);
        let ghost upto = views.subrange(0, i + 1);
        assert(upto.drop_last() =~= before);
        assert(upto.last() == lines@[i as int]@);
        proof {
            lemma_listed_name_not_empty(l, lines@[i as int]@);
        }
        match name_in_line(l, lines[i].as_str()) {
            Some(n) => {
                out.push(BentoCommand::new(n, String::from_str(label)));
            },
            None => {},
        }
        i += 1;
    }
    assert(views.subrange(0, lines.len() as int) =~= views);
    out
}

/// Whether a file with permission bits `mode` can be run by someone.
pub fn is_executable_mode(mode: u32) -> (r: bool)
    ensures
        r == (mode & 0o111u32 != 0),
{
    mode & 0o111u32 != 0
}

} // verus!
