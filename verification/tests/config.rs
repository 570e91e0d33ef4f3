use shipgate::config::{
    base_candidates, config_candidates, config_path, fallback_base, own_base, Config, Models,
    RepoConfig, Watch,
};

fn text(table: &toml::Table, key: &str) -> Option<String> {
    table.get(key).and_then(|v| v.as_str()).map(|s| s.to_string())
}

/// The settings that a file describes.
fn read(file: &str) -> Config {
    let table: toml::Table = toml::from_str(file).unwrap();
    let none = toml::Table::new();
    let models = table.get("models").and_then(|v| v.as_table()).unwrap_or(&none);
    let repos = table.get("repo").and_then(|v| v.as_table()).unwrap_or(&none);
    Config {
        repo: repos
            .iter()
            .map(|(name, v)| {
                (name.clone(), RepoConfig { base: text(v.as_table().unwrap_or(&none), "base") })
            })
            .collect(),
        models: Models::from_parts(text(models, "generate"), text(models, "judge")),
        watch: Vec::new(),
    }
}

#[test]
fn defaults_use_two_different_models() {
    let m = Models::default();
    assert_eq!(m.generate, "sonnet");
    assert_eq!(m.judge, "haiku");
    assert_ne!(m.generate, m.judge);
}

#[test]
fn an_empty_config_still_yields_models() {
    let c = read("");
    assert_eq!(c.models.generate, "sonnet");
    assert_eq!(Config::default().models.generate, "sonnet");
}

#[test]
fn either_model_can_be_overridden_alone() {
    let c = read("[models]\ngenerate = \"opus\"\n");
    assert_eq!(c.models.generate, "opus");
    assert_eq!(c.models.judge, "haiku", "judge should keep its default");
}

#[test]
fn repo_bases_and_models_coexist() {
    let c = read(
        "[models]\njudge = \"sonnet\"\n\n[repo.\"PostCo/project-tapir\"]\nbase = \"develop\"\n",
    );
    assert_eq!(c.models.judge, "sonnet");
    assert_eq!(c.repo[0].0, "PostCo/project-tapir");
    assert_eq!(c.repo[0].1.base.as_deref(), Some("develop"));
}

#[test]
fn a_tilde_path_expands_to_the_home_directory() {
    let w = Watch { path: "~/workspace/project-tapir".into() };
    let p = w.expanded(Some("/home/me"));
    assert!(p.starts_with('/'), "{p:?} should be absolute");
    assert!(!p.contains('~'));
    assert!(p.ends_with("workspace/project-tapir"));
    assert_eq!(p, "/home/me/workspace/project-tapir");
}

#[test]
fn an_absolute_path_is_left_alone() {
    let w = Watch { path: "/opt/src/repo".into() };
    assert_eq!(w.expanded(Some("/home/me")), "/opt/src/repo");
}

#[test]
fn without_a_home_a_tilde_stays() {
    assert_eq!(Watch { path: "~/x".into() }.expanded(None), "~/x");
    assert_eq!(Watch { path: "~/x".into() }.expanded(Some("/")), "/x");
    assert_eq!(Watch { path: "~//x".into() }.expanded(Some("/home/me")), "/x");
}

#[test]
fn settings_are_looked_for_in_order_and_an_existing_file_wins() {
    let all = config_candidates(Some("/xdg"), Some("/home/me"), Some("/lib/shipgate"));
    assert_eq!(
        all,
        vec![
            "/xdg/shipgate/config.toml",
            "/home/me/.config/shipgate/config.toml",
            "/lib/shipgate/config.toml",
        ]
    );
    assert_eq!(config_path(&all, &[false, true, true]).as_deref(), Some(all[1].as_str()));
    assert_eq!(config_path(&all, &[false, false, false]).as_deref(), Some(all[0].as_str()));
    assert_eq!(config_path(&[], &[]), None);
    assert_eq!(config_candidates(Some("  "), None, None).len(), 0);
}

#[test]
fn the_set_base_comes_first_and_the_remote_head_last() {
    let c = read("[repo.\"o/r\"]\nbase = \"trunk\"\n");
    let all = base_candidates("origin", "o/r", &c);
    assert_eq!(all, vec!["origin/trunk", "origin/develop", "origin/master", "origin/main"]);
    assert_eq!(fallback_base(&all, &[true, true, true, true], ""), "origin/trunk");
    assert_eq!(fallback_base(&all, &[false, false, true, true], ""), "origin/master");
    assert_eq!(
        fallback_base(&all, &[false, false, false, false], "refs/remotes/origin/next\n"),
        "origin/next"
    );
    assert_eq!(base_candidates("origin", "o/other", &c).len(), 3);
    assert_eq!(own_base("origin", "main"), "origin/main");
}

#[test]
fn one_model_for_both_is_warned_about() {
    assert_eq!(Models::default().warning(), None);
    let same = Models::from_parts(Some("haiku".to_string()), None);
    assert_eq!(
        same.warning().as_deref(),
        Some("warning: haiku both writes and grades the questions — set two different models")
    );
}
