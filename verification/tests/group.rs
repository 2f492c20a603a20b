use supaa::group::{lookup_gid, socket_group, FALLBACK_GROUP, SOCKET_GROUP};

const GROUPS: &str = "root:x:0:root\nwheel:x:998:alice\nsupaa:x:1001:alice,bob\n";

#[test]
fn a_group_is_found_by_its_name() {
    assert_eq!(lookup_gid(GROUPS, "root"), Some(0));
    assert_eq!(lookup_gid(GROUPS, "wheel"), Some(998));
    assert_eq!(lookup_gid(GROUPS, "supaa"), Some(1001));
    assert_eq!(lookup_gid(GROUPS, "sup"), None);
    assert_eq!(lookup_gid("", "supaa"), None);
}

#[test]
fn the_first_line_with_the_name_counts() {
    assert_eq!(lookup_gid("supaa:x\nsupaa:x:7:\n", "supaa"), None);
    assert_eq!(lookup_gid("supaa:x:none:\nsupaa:x:7:\n", "supaa"), None);
    assert_eq!(lookup_gid("supaa:x: 7 :\nsupaa:x:8:\n", "supaa"), Some(7));
    assert_eq!(lookup_gid("other\nsupaa:x:8\n", "supaa"), Some(8));
    assert_eq!(lookup_gid("supaa:x:4294967296:\n", "supaa"), None);
}

#[test]
fn the_own_group_comes_first() {
    assert_eq!(socket_group(GROUPS), Some((SOCKET_GROUP, 1001)));
    assert_eq!(socket_group("wheel:x:998:\n"), Some((FALLBACK_GROUP, 998)));
    assert_eq!(socket_group("supaa:x:?:\nwheel:x:998:\n"), Some(("wheel", 998)));
    assert_eq!(socket_group("root:x:0:\n"), None);
}
