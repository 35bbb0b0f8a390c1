use eda_cli_core::pool_search::{PoolObjectLocation, PoolRef, pool_object_location, pool_search_order};

fn pool(path: &str, priority: i32) -> PoolRef {
    PoolRef { path: path.to_string(), priority }
}

#[test]
fn pools_are_searched_by_priority_then_path() {
    let refs = vec![pool("pools/b", 2), pool("pools/z", 1), pool("pools/a", 2), pool("/abs/lib", 1)];
    let order: Vec<String> = pool_search_order(refs).into_iter().map(|r| r.path).collect();
    assert_eq!(order, vec!["/abs/lib", "pools/z", "pools/a", "pools/b"]);
    assert!(pool_search_order(vec![]).is_empty());
}

#[test]
fn object_location_by_kind_and_uuid() {
    let id = 0x0123_4567_89ab_cdef_0123_4567_89ab_cdefu128;
    assert_eq!(
        pool_object_location("pools/main", false, "packages", id),
        PoolObjectLocation::Relative {
            relative_path: "pools/main/packages/01234567-89ab-cdef-0123-456789abcdef.json".to_string()
        }
    );
    assert_eq!(
        pool_object_location("/opt/pool", true, "parts", id),
        PoolObjectLocation::Absolute {
            pool_dir: "/opt/pool".to_string(),
            kind_dir: "parts".to_string(),
            file_name: "01234567-89ab-cdef-0123-456789abcdef.json".to_string()
        }
    );
}
