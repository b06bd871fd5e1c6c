use sea_lantern::players::{json_list_is_empty, remove_player, PlayerEntry};

#[test]
fn empty_list_files() {
    assert!(json_list_is_empty(""));
    assert!(json_list_is_empty("  \n"));
    assert!(json_list_is_empty(" [] \n"));
    assert!(!json_list_is_empty("[ ]"));
    assert!(!json_list_is_empty("[{\"uuid\":\"u\",\"name\":\"n\"}]"));
}

#[test]
fn removes_players_by_name_ignoring_case() {
    let list = vec![
        PlayerEntry { uuid: "1".to_string(), name: "Steve".to_string() },
        PlayerEntry { uuid: "2".to_string(), name: "Alex".to_string() },
        PlayerEntry { uuid: "3".to_string(), name: "STEVE".to_string() },
    ];
    let kept = remove_player(list, "steve");
    assert_eq!(kept.len(), 1);
    assert_eq!(kept[0].name, "Alex");
}
