use nmt_platform::tabs::{
    git_tab_cwd, git_tab_visibility, position, quote_target, return_target, toggle_git_tab,
    GitTabVisibility, GitToggle, SurfaceKind, TabEntry, TabQuery,
};

fn tab(id: u64, kind: SurfaceKind) -> TabEntry {
    TabEntry { id, kind }
}

#[test]
fn toggling_reuses_the_review_tab() {
    let tabs = vec![
        tab(1, SurfaceKind::Terminal),
        tab(2, SurfaceKind::Git),
        tab(3, SurfaceKind::Agent),
    ];
    assert_eq!(
        toggle_git_tab(&tabs, 0),
        GitToggle::Activate { index: 1, return_to: Some(1) }
    );
    assert_eq!(
        toggle_git_tab(&tabs, 1),
        GitToggle::Activate { index: 1, return_to: None }
    );
    let without = vec![tab(1, SurfaceKind::Terminal), tab(3, SurfaceKind::Agent)];
    assert_eq!(toggle_git_tab(&without, 1), GitToggle::Create { return_to: Some(3) });
}

#[test]
fn a_new_review_tab_inspects_the_closest_directory() {
    let pane = Some(String::from("/pane"));
    let agent = Some(String::from("/agent"));
    let root = Some(String::from("/root"));
    assert_eq!(git_tab_cwd(pane.clone(), agent.clone(), root.clone()), "/pane");
    assert_eq!(git_tab_cwd(None, agent, root.clone()), "/agent");
    assert_eq!(git_tab_cwd(None, None, root), "/root");
    assert_eq!(git_tab_cwd(None, None, None), "");
}

#[test]
fn returning_prefers_the_remembered_tab() {
    let tabs = vec![
        tab(7, SurfaceKind::Git),
        tab(8, SurfaceKind::Terminal),
        tab(9, SurfaceKind::Agent),
    ];
    assert_eq!(return_target(&tabs, Some(9)), Some(2));
    assert_eq!(return_target(&tabs, Some(42)), Some(1));
    assert_eq!(return_target(&tabs, None), Some(1));
    assert_eq!(return_target(&vec![tab(7, SurfaceKind::Git)], None), None);
}

#[test]
fn quotes_go_to_an_agent_tab() {
    let tabs = vec![
        tab(1, SurfaceKind::Terminal),
        tab(2, SurfaceKind::Agent),
        tab(3, SurfaceKind::Git),
        tab(4, SurfaceKind::Agent),
    ];
    assert_eq!(quote_target(&tabs, Some(4)), Some(3));
    assert_eq!(quote_target(&tabs, Some(1)), Some(1));
    assert_eq!(quote_target(&tabs, None), Some(1));
    assert_eq!(quote_target(&vec![tab(1, SurfaceKind::Terminal)], Some(1)), None);
}

#[test]
fn only_the_active_review_tab_is_visible() {
    let all = vec![
        tab(1, SurfaceKind::Git),
        tab(2, SurfaceKind::Agent),
        tab(3, SurfaceKind::Terminal),
        tab(4, SurfaceKind::Git),
    ];
    let active = vec![tab(1, SurfaceKind::Git), tab(2, SurfaceKind::Agent)];
    assert_eq!(
        git_tab_visibility(&all, &active, 1),
        vec![
            GitTabVisibility { id: 1, visible: true, can_quote: true },
            GitTabVisibility { id: 4, visible: false, can_quote: false },
        ]
    );
    let no_agent = vec![tab(4, SurfaceKind::Git)];
    assert_eq!(
        git_tab_visibility(&all, &no_agent, 4),
        vec![
            GitTabVisibility { id: 1, visible: false, can_quote: false },
            GitTabVisibility { id: 4, visible: true, can_quote: false },
        ]
    );
}

#[test]
fn positions_find_the_first_match() {
    let tabs = vec![tab(5, SurfaceKind::Agent), tab(6, SurfaceKind::Agent)];
    assert_eq!(position(&tabs, TabQuery::Kind(SurfaceKind::Agent)), Some(0));
    assert_eq!(position(&tabs, TabQuery::Id(6)), Some(1));
    assert_eq!(position(&tabs, TabQuery::NotKind(SurfaceKind::Agent)), None);
    assert_eq!(position(&tabs, TabQuery::IdAndKind(6, SurfaceKind::Git)), None);
}
