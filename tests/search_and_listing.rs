use bento::listing::{commands_from_lines, is_executable_mode, name_in_line, Listing};
use bento::matcher::score_lowered;
use bento::{fuzzy_match, search, BentoCommand, Category, FilterFlags, MAX_RESULTS};

fn cmd(name: &str, category: &str) -> BentoCommand {
    BentoCommand::new(name.to_string(), category.to_string())
}

fn names(found: &[BentoCommand]) -> Vec<String> {
    found.iter().map(|c| c.name.clone()).collect()
}

fn no_flags() -> FilterFlags {
    FilterFlags {
        alias: false,
        function: false,
        bin: false,
        homebrew: false,
        cask: false,
        pip: false,
        npm: false,
        yarn: false,
        cargo: false,
        go: false,
    }
}

#[test]
fn substring_scores_twice_the_query_length() {
    assert_eq!(fuzzy_match("git", "gitignore"), 6);
    assert_eq!(fuzzy_match("ignore", "gitignore"), 12);
    assert_eq!(score_lowered("it", "gitignore"), 4);
}

#[test]
fn length_counts_characters_not_bytes() {
    assert_eq!(fuzzy_match("café", "café"), 8);
    assert_eq!(fuzzy_match("ë", "tëst"), 2);
}

#[test]
fn disjoint_characters_score_zero() {
    assert_eq!(fuzzy_match("xyz", "abc"), 0);
    assert_eq!(score_lowered("qq", "abc"), 0);
}

#[test]
fn case_is_ignored() {
    assert_eq!(fuzzy_match("GIT", "git"), fuzzy_match("git", "git"));
    assert_eq!(fuzzy_match("GiT", "LEGIT"), 6);
    assert_eq!(score_lowered("GIT", "git"), 0);
}

#[test]
fn forward_pass_never_backtracks() {
    assert_eq!(fuzzy_match("ab", "ba"), 1);
    assert_eq!(fuzzy_match("abc", "cba"), 1);
    assert_eq!(fuzzy_match("gt", "git"), 2);
    assert_eq!(fuzzy_match("gxt", "git"), 1);
    assert_eq!(score_lowered("npm", "nodejs-package-manager"), 3);
}

#[test]
fn empty_inputs() {
    assert_eq!(fuzzy_match("", "test"), 0);
    assert_eq!(fuzzy_match("test", ""), 0);
    assert_eq!(fuzzy_match("", ""), 0);
    let all = vec![cmd("git", "bin")];
    assert!(search(&all, "", None).is_empty());
}

#[test]
fn substring_beats_subsequence() {
    let q = "git";
    assert!(fuzzy_match(q, "legit") >= fuzzy_match(q, "g-i-t"));
    assert_eq!(fuzzy_match(q, "g-i-t"), 3);
}

#[test]
fn search_ties_keep_collection_order() {
    let all = vec![cmd("git", "bin"), cmd("gitignore", "bin"), cmd("gitlab", "bin")];
    for c in &all {
        assert_eq!(fuzzy_match("git", &c.name), 6);
    }
    let found = search(&all, "git", None);
    assert_eq!(names(&found), vec!["git", "gitignore", "gitlab"]);
}

#[test]
fn search_mixed_sources_drops_zero_scores() {
    let all = vec![
        cmd("git", "bin"),
        cmd("github-cli", "homebrew"),
        cmd("gitignore", "npm"),
        cmd("pytest", "pip"),
    ];
    let found = search(&all, "git", None);
    assert_eq!(found.len(), 3);
    for c in &found {
        assert!(c.name.contains("git"));
    }
    assert_eq!(found[1].category, "homebrew");
}

#[test]
fn search_orders_by_score() {
    let all = vec![cmd("g-i-t", "bin"), cmd("gt", "bin"), cmd("legit", "alias")];
    let found = search(&all, "GIT", None);
    assert_eq!(names(&found), vec!["legit", "g-i-t", "gt"]);
}

#[test]
fn search_honours_the_filter() {
    let all = vec![
        cmd("git", "bin"),
        cmd("github-cli", "homebrew"),
        cmd("gitignore", "npm"),
    ];
    let found = search(&all, "git", Some("homebrew"));
    assert_eq!(names(&found), vec!["github-cli"]);
    assert!(search(&all, "git", Some("cargo")).is_empty());
}

#[test]
fn search_caps_the_result_count() {
    let all: Vec<BentoCommand> = (0..40).map(|i| cmd(&format!("tool{}", i), "bin")).collect();
    let found = search(&all, "tool", None);
    assert_eq!(found.len(), MAX_RESULTS);
    assert_eq!(found[0].name, "tool0");
    assert_eq!(found[14].name, "tool14");
    assert!(search(&[].to_vec(), "tool", None).is_empty());
}

#[test]
fn search_keeps_the_best_when_capped() {
    let mut all: Vec<BentoCommand> = (0..20).map(|i| cmd(&format!("t-o-o-l{}", i), "bin")).collect();
    all.push(cmd("toolbox", "cargo"));
    let found = search(&all, "tool", None);
    assert_eq!(found.len(), 15);
    assert_eq!(found[0].name, "toolbox");
    assert_eq!(found[1].name, "t-o-o-l0");
}

#[test]
fn filter_flags_follow_precedence() {
    assert_eq!(no_flags().active(), None);
    let mut f = no_flags();
    f.go = true;
    assert_eq!(f.active(), Some(Category::Go));
    f.pip = true;
    assert_eq!(f.active(), Some(Category::Pip));
    f.homebrew = true;
    f.cask = true;
    assert_eq!(f.active(), Some(Category::Homebrew));
    f.alias = true;
    assert_eq!(f.active(), Some(Category::Alias));
}

#[test]
fn category_labels_round_trip() {
    let all = [
        Category::Alias,
        Category::Function,
        Category::Bin,
        Category::Homebrew,
        Category::Cask,
        Category::Pip,
        Category::Npm,
        Category::Yarn,
        Category::Cargo,
        Category::Go,
    ];
    for c in all {
        assert_eq!(Category::from_label(c.label()), Some(c));
    }
    assert_eq!(Category::Cask.label(), "cask");
    assert_eq!(Category::from_label("brew"), None);
}

#[test]
fn homebrew_lines_are_trimmed() {
    assert_eq!(name_in_line(Listing::Homebrew, "  wget \t"), Some("wget".to_string()));
    assert_eq!(name_in_line(Listing::Cask, " \u{3000}"), None);
}

#[test]
fn pip_lines_stop_at_the_version() {
    assert_eq!(name_in_line(Listing::Pip, "Django==4.2.1"), Some("Django".to_string()));
    assert_eq!(name_in_line(Listing::Pip, "requests"), Some("requests".to_string()));
    assert_eq!(name_in_line(Listing::Pip, "a=b==c"), Some("a=b".to_string()));
}

#[test]
fn npm_lines_keep_the_last_path_part() {
    assert_eq!(
        name_in_line(Listing::Npm, "/usr/local/lib/node_modules/typescript"),
        Some("typescript".to_string())
    );
    assert_eq!(name_in_line(Listing::Npm, "/usr/local/lib"), None);
    assert_eq!(name_in_line(Listing::Npm, "/usr/local/"), None);
}

#[test]
fn yarn_lines_need_info_and_version() {
    assert_eq!(
        name_in_line(Listing::Yarn, "info \"create-react-app@5.0.1\" has binaries:"),
        Some("\"create-react-app".to_string())
    );
    assert_eq!(name_in_line(Listing::Yarn, "info info eslint@8"), Some("eslint".to_string()));
    assert_eq!(name_in_line(Listing::Yarn, "info no version"), None);
    assert_eq!(name_in_line(Listing::Yarn, "done@1"), None);
}

#[test]
fn cargo_lines_skip_binaries() {
    assert_eq!(name_in_line(Listing::Cargo, "ripgrep v14.1.0:"), Some("ripgrep".to_string()));
    assert_eq!(name_in_line(Listing::Cargo, "    rg"), None);
    assert_eq!(name_in_line(Listing::Cargo, "nothing here"), None);
}

#[test]
fn go_lines_keep_the_module_tail() {
    assert_eq!(
        name_in_line(Listing::Go, "  github.com/spf13/cobra v1.8.0"),
        Some("cobra".to_string())
    );
    assert_eq!(name_in_line(Listing::Go, "example v1"), None);
    assert_eq!(name_in_line(Listing::Go, "   "), None);
}

#[test]
fn alias_lines_give_the_alias_name() {
    assert_eq!(name_in_line(Listing::Alias, "alias ll='ls -l'"), Some("ll".to_string()));
    assert_eq!(name_in_line(Listing::Alias, "gs='git status'"), Some("gs".to_string()));
    assert_eq!(name_in_line(Listing::Alias, "-x=1"), None);
    assert_eq!(name_in_line(Listing::Alias, "no equals"), None);
}

#[test]
fn function_lines_are_single_words() {
    assert_eq!(name_in_line(Listing::Function, " mkcd "), Some("mkcd".to_string()));
    assert_eq!(name_in_line(Listing::Function, "_private"), None);
    assert_eq!(name_in_line(Listing::Function, "two words"), None);
}

#[test]
fn login_alias_lines_drop_quotes() {
    assert_eq!(name_in_line(Listing::LoginAlias, "alias 'la'='ls -a'"), Some("la".to_string()));
    assert_eq!(name_in_line(Listing::LoginAlias, "\"..\"='cd ..'"), Some("..".to_string()));
    assert_eq!(name_in_line(Listing::LoginAlias, "café=x"), Some("café".to_string()));
    assert_eq!(name_in_line(Listing::LoginAlias, "a b=c"), None);
}

#[test]
fn zsh_function_lines_need_name_characters() {
    assert_eq!(name_in_line(Listing::ZshFunction, "git-root"), Some("git-root".to_string()));
    assert_eq!(name_in_line(Listing::ZshFunction, "a.b"), None);
    assert_eq!(name_in_line(Listing::ZshFunction, "_comp"), None);
}

#[test]
fn listing_lines_become_commands() {
    let lines = vec!["ripgrep v14.1.0:".to_string(), "    rg".to_string(), "bat v0.24.0:".to_string()];
    let found = commands_from_lines(Listing::Cargo, &lines);
    assert_eq!(names(&found), vec!["ripgrep", "bat"]);
    assert!(found.iter().all(|c| c.category == "cargo"));
    let aliases = commands_from_lines(Listing::LoginAlias, &vec!["alias k=kubectl".to_string()]);
    assert_eq!(aliases[0].category, "alias");
}

#[test]
fn executable_bits() {
    assert!(is_executable_mode(0o755));
    assert!(is_executable_mode(0o100));
    assert!(!is_executable_mode(0o644));
}

#[test]
fn empty_names_are_dropped() {
    assert_eq!(name_in_line(Listing::Pip, ""), None);
    assert_eq!(name_in_line(Listing::Pip, "==1.0"), None);
    assert_eq!(name_in_line(Listing::Yarn, "info @x@1"), None);
    assert_eq!(name_in_line(Listing::Go, "example.com/x/ v1"), None);
    let lines = vec!["".to_string(), "flask==3.0".to_string(), "==2".to_string()];
    let found = commands_from_lines(Listing::Pip, &lines);
    assert_eq!(names(&found), vec!["flask"]);
}
