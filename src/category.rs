use vstd::prelude::*;

use crate::text::same_text;

verus! {

/// The sources a command can come from.
#[derive(Debug, Clone, Copy, PartialEq, Eq, Structural)]
pub enum Category {
    Alias,
    Function,
    Bin,
    Homebrew,
    Cask,
    Pip,
    Npm,
    Yarn,
    Cargo,
    Go,
}

/// The label a category is written with.
pub open spec fn label_of(c: Category) -> Seq<char> {
    match c {
        Category::Alias => "alias"@,
        Category::Function => "function"@,
        Category::Bin => "bin"@,
        Category::Homebrew => "homebrew"@,
        Category::Cask => "cask"@,
        Category::Pip => "pip"@,
        Category::Npm => "npm"@,
        Category::Yarn => "yarn"@,
        Category::Cargo => "cargo"@,
        Category::Go => "go"@,
    }
}

impl Category {
    /// The label this category is written with.
    pub fn label(&self) -> (r: &'static str)
        ensures
            r@ == label_of(*self),
    {
        match self {
            Category::Alias => "alias",
            Category::Function => "function",
            Category::Bin => "bin",
            Category::Homebrew => "homebrew",
            Category::Cask => "cask",
            Category::Pip => "pip",
            Category::Npm => "npm",
            Category::Yarn => "yarn",
            Category::Cargo => "cargo",
            Category::Go => "go",
        }
    }

    /// The category written with `s`, if any.
    pub fn from_label(s: &str) -> (r: Option<Category>)
        ensures
            r matches Some(c) ==> label_of(c) == s@,
            r is None ==> forall|c: Category| label_of(c) != s@,
    {
        let all = [
            Category::Alias,
            Category::Function,
            Category::Bin,
            Category::Homebrew,
            Category::Cask,
            Category::Pip,
            Category::Npm,
            Category::Yarn,
            Category::Cargo,
            Category::Go,
        ];
        let mut i: usize = 0;
        while i < 10
            invariant
                all@ == seq![
                    Category::Alias,
                    Category::Function,
                    Category::Bin,
                    Category::Homebrew,
                    Category::Cask,
                    Category::Pip,
                    Category::Npm,
                    Category::Yarn,
                    Category::Cargo,
                    Category::Go,
                ],
                i <= 10,
                forall|k: int| 0 <= k < i ==> label_of(#[trigger] all@[k]) != s@,
            decreases 10 - i,
        {
            let c = all[i];
            if same_text(c.label(), s) {
                return Some(c);
            }
            i += 1;
        }
        assert forall|c: Category| label_of(c) != s@ by {
            let k: int = match c {
                Category::Alias => 0,
                Category::Function => 1,
                Category::Bin => 2,
                Category::Homebrew => 3,
                Category::Cask => 4,
                Category::Pip => 5,
                Category::Npm => 6,
                Category::Yarn => 7,
                Category::Cargo => 8,
                Category::Go => 9,
            };
            assert(all@[k] == c);
        }
        None
    }
}

/// Which category filters were asked for. At most one is honoured: the first
/// set one in the order alias, function, bin, homebrew, cask, pip, npm, yarn,
/// cargo, go.
#[derive(Debug, Clone, Copy, PartialEq, Eq, Structural)]
pub struct FilterFlags {
    pub alias: bool,
    pub function: bool,
    pub bin: bool,
    pub homebrew: bool,
    pub cask: bool,
    pub pip: bool,
    pub npm: bool,
    pub yarn: bool,
    pub cargo: bool,
    pub go: bool,
}

impl FilterFlags {
    /// The category of the first flag set, in order of precedence.
    pub open spec fn active_spec(self) -> Option<Category> {
        if self.alias {
            Some(Category::Alias)
        } else if self.function {
            Some(Category::Function)
        } else if self.bin {
            Some(Category::Bin)
        } else if self.homebrew {
            Some(Category::Homebrew)
        } else if self.cask {
            Some(Category::Cask)
        } else if self.pip {
            Some(Category::Pip)
        } else if self.npm {
            Some(Category::Npm)
        } else if self.yarn {
            Some(Category::Yarn)
        } else if self.cargo {
            Some(Category::Cargo)
        } else if self.go {
            Some(Category::Go)
        } else {
            None
        }
    }

    /// The filter that applies: the category of the first flag set, in
    /// order of precedence, or none when no flag is set.
    pub fn active(&self) -> (r: Option<Category>)
        ensures
            r == self.active_spec(),
    {
        if self.alias {
            Some(Category::Alias)
        } else if self.function {
            Some(Category::Function)
        } else if self.bin {
            Some(Category::Bin)
        } else if self.homebrew {
            Some(Category::Homebrew)
        } else if self.cask {
            Some(Category::Cask)
        } else if self.pip {
            Some(Category::Pip)
        } else if self.npm {
            Some(Category::Npm)
        } else if self.yarn {
            Some(Category::Yarn)
        } else if self.cargo {
            Some(Category::Cargo)
        } else if self.go {
            Some(Category::Go)
        } else {
            None
        }
    }
}

} // verus!
