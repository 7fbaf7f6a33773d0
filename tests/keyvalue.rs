use slight_keyvalue::{
    BasicState, CapabilityStore, EnabledBackends, Keyvalue, KeyvalueError, KeyvalueImplementors, KeyvalueResource, MemoryImplementor, Resource,
};

fn state(r: Resource) -> BasicState {
    BasicState {
        implementor: r,
        config_type: String::from("env_vars"),
        config_toml_file_path: String::from("./slightfile.toml"),
    }
}

fn fs_store() -> CapabilityStore {
    let mut st = CapabilityStore::new();
    assert!(st.add(
        String::from("mystore"),
        String::from("keyvalue"),
        state(Resource::Keyvalue(KeyvalueResource::Filesystem)),
    ));
    st
}

fn front_door() -> Keyvalue<MemoryImplementor> {
    Keyvalue::new(
        Resource::Keyvalue(KeyvalueResource::Filesystem),
        fs_store(),
        EnabledBackends::all(),
        1,
    )
}

fn s(x: &str) -> String {
    String::from(x)
}

#[test]
fn open_set_get_round_trip() {
    let mut kv = front_door();
    let h = kv.keyvalue_open(&s("mystore")).unwrap();
    kv.keyvalue_set(&h, &s("a"), &vec![1, 2, 3]).unwrap();
    assert_eq!(kv.keyvalue_get(&h, &s("a")).unwrap(), vec![1, 2, 3]);
}

#[test]
fn open_unconfigured_name_is_not_found() {
    let mut kv: Keyvalue<MemoryImplementor> = Keyvalue::new(
        Resource::Keyvalue(KeyvalueResource::Redis),
        fs_store(),
        EnabledBackends::all(),
        1,
    );
    assert!(matches!(kv.keyvalue_open(&s("ghost")), Err(KeyvalueError::NotFound)));
}

#[test]
fn two_opens_share_one_instance() {
    let mut kv = front_door();
    let h1 = kv.keyvalue_open(&s("mystore")).unwrap();
    let h2 = kv.keyvalue_open(&s("mystore")).unwrap();
    assert_eq!(h1, h2);
    kv.keyvalue_set(&h1, &s("x"), &vec![9]).unwrap();
    assert_eq!(kv.keyvalue_get(&h2, &s("x")).unwrap(), vec![9]);
}

#[test]
fn set_delete_get_is_not_found() {
    let mut kv = front_door();
    let h = kv.keyvalue_open(&s("mystore")).unwrap();
    kv.keyvalue_set(&h, &s("k"), &vec![1]).unwrap();
    kv.keyvalue_delete(&h, &s("k")).unwrap();
    assert!(matches!(kv.keyvalue_get(&h, &s("k")), Err(KeyvalueError::NotFound)));
}

#[test]
fn delete_of_never_set_key_succeeds() {
    let mut kv = front_door();
    let h = kv.keyvalue_open(&s("mystore")).unwrap();
    assert!(kv.keyvalue_delete(&h, &s("never")).is_ok());
    assert!(matches!(kv.keyvalue_get(&h, &s("never")), Err(KeyvalueError::NotFound)));
    assert!(kv.keyvalue_keys(&h).unwrap().is_empty());
}

#[test]
fn keys_after_three_sets() {
    let mut kv = front_door();
    let h = kv.keyvalue_open(&s("mystore")).unwrap();
    kv.keyvalue_set(&h, &s("a"), &vec![1]).unwrap();
    kv.keyvalue_set(&h, &s("b"), &vec![2]).unwrap();
    kv.keyvalue_set(&h, &s("c"), &vec![3]).unwrap();
    kv.keyvalue_set(&h, &s("b"), &vec![4]).unwrap();
    let mut ks = kv.keyvalue_keys(&h).unwrap();
    ks.sort();
    assert_eq!(ks, vec![s("a"), s("b"), s("c")]);
    assert_eq!(kv.keyvalue_get(&h, &s("b")).unwrap(), vec![4]);
}

#[test]
fn empty_value_and_empty_key() {
    let mut kv = front_door();
    let h = kv.keyvalue_open(&s("mystore")).unwrap();
    kv.keyvalue_set(&h, &s(""), &vec![]).unwrap();
    assert_eq!(kv.keyvalue_get(&h, &s("")).unwrap(), Vec::<u8>::new());
    assert_eq!(kv.keyvalue_keys(&h).unwrap(), vec![s("")]);
}

#[test]
fn open_falls_back_to_provider_identity() {
    let mut st = CapabilityStore::new();
    assert!(st.add(
        s("keyvalue.azblob"),
        s("keyvalue"),
        state(Resource::Keyvalue(KeyvalueResource::Azblob)),
    ));
    let mut kv: Keyvalue<MemoryImplementor> =
        Keyvalue::new(Resource::Keyvalue(KeyvalueResource::Azblob), st, EnabledBackends::all(), 1);
    let h1 = kv.keyvalue_open(&s("orders")).unwrap();
    let h2 = kv.keyvalue_open(&s("users")).unwrap();
    assert_ne!(h1, h2);
    kv.keyvalue_set(&h1, &s("id"), &vec![7]).unwrap();
    assert!(matches!(kv.keyvalue_get(&h2, &s("id")), Err(KeyvalueError::NotFound)));
}

#[test]
fn lookup_ignores_other_capability_kinds() {
    let mut st = CapabilityStore::new();
    assert!(st.add(s("mystore"), s("messaging"), state(Resource::Messaging)));
    let mut kv: Keyvalue<MemoryImplementor> =
        Keyvalue::new(Resource::Keyvalue(KeyvalueResource::Filesystem), st, EnabledBackends::all(), 1);
    assert!(matches!(kv.keyvalue_open(&s("mystore")), Err(KeyvalueError::NotFound)));
}

#[test]
fn open_non_keyvalue_resource_is_unsupported() {
    let mut st = CapabilityStore::new();
    assert!(st.add(s("queue"), s("keyvalue"), state(Resource::Messaging)));
    let mut kv: Keyvalue<MemoryImplementor> =
        Keyvalue::new(Resource::Keyvalue(KeyvalueResource::Filesystem), st, EnabledBackends::all(), 1);
    assert!(matches!(
        kv.keyvalue_open(&s("queue")),
        Err(KeyvalueError::UnsupportedResource)
    ));
}

#[test]
fn open_disabled_backend_is_unsupported() {
    let mut st = CapabilityStore::new();
    assert!(st.add(
        s("cache"),
        s("keyvalue"),
        state(Resource::Keyvalue(KeyvalueResource::V1Redis)),
    ));
    let enabled = EnabledBackends { filesystem: true, azblob: true, awsdynamodb: true, redis: false };
    let mut kv: Keyvalue<MemoryImplementor> =
        Keyvalue::new(Resource::Keyvalue(KeyvalueResource::Filesystem), st, enabled, 1);
    assert!(matches!(
        kv.keyvalue_open(&s("cache")),
        Err(KeyvalueError::UnsupportedResource)
    ));
}

#[test]
fn versioned_aliases_resolve_to_the_same_kind() {
    let all = EnabledBackends::all();
    let pairs = [
        (KeyvalueResource::Filesystem, KeyvalueResource::V1Filesystem, KeyvalueImplementors::Filesystem),
        (KeyvalueResource::Azblob, KeyvalueResource::V1Azblob, KeyvalueImplementors::AzBlob),
        (KeyvalueResource::AwsDynamoDb, KeyvalueResource::V1AwsDynamoDb, KeyvalueImplementors::AwsDynamoDb),
        (KeyvalueResource::Redis, KeyvalueResource::V1Redis, KeyvalueImplementors::Redis),
    ];
    for (cur, v1, kind) in pairs {
        assert_eq!(KeyvalueImplementors::from_resource(Resource::Keyvalue(cur), &all), Some(kind));
        assert_eq!(KeyvalueImplementors::from_resource(Resource::Keyvalue(v1), &all), Some(kind));
    }
    assert_eq!(KeyvalueImplementors::from_resource(Resource::Sql, &all), None);
}

#[test]
fn identity_strings() {
    assert_eq!(Resource::Keyvalue(KeyvalueResource::Filesystem).identity(), "keyvalue.filesystem");
    assert_eq!(Resource::Keyvalue(KeyvalueResource::V1Redis).identity(), "kv.redis");
    assert_eq!(Resource::Messaging.identity(), "messaging");
}

#[test]
fn store_refuses_duplicate_key() {
    let mut st = fs_store();
    assert!(!st.add(s("mystore"), s("keyvalue"), state(Resource::Keyvalue(KeyvalueResource::Redis))));
    let got = st.get(&s("mystore"), &s("keyvalue")).unwrap();
    assert_eq!(got.implementor, Resource::Keyvalue(KeyvalueResource::Filesystem));
    assert!(st.add(s("mystore"), s("messaging"), state(Resource::Messaging)));
    assert!(st.get(&s("other"), &s("keyvalue")).is_none());
}

#[test]
fn handle_of_another_front_door_is_not_found() {
    let mut a = front_door();
    let mut b: Keyvalue<MemoryImplementor> = Keyvalue::new(
        Resource::Keyvalue(KeyvalueResource::Filesystem),
        fs_store(),
        EnabledBackends::all(),
        2,
    );
    let ha = a.keyvalue_open(&s("mystore")).unwrap();
    let hb = b.keyvalue_open(&s("mystore")).unwrap();
    assert_ne!(ha, hb);
    b.keyvalue_set(&hb, &s("x"), &vec![1]).unwrap();
    assert!(matches!(b.keyvalue_get(&ha, &s("x")), Err(KeyvalueError::NotFound)));
    assert!(matches!(b.keyvalue_keys(&ha), Err(KeyvalueError::NotFound)));
    assert!(matches!(b.keyvalue_set(&ha, &s("x"), &vec![2]), Err(KeyvalueError::NotFound)));
    assert!(matches!(b.keyvalue_delete(&ha, &s("x")), Err(KeyvalueError::NotFound)));
    assert_eq!(b.keyvalue_get(&hb, &s("x")).unwrap(), vec![1]);
}

#[test]
fn reopen_after_use_keeps_unconfigured_names_not_found() {
    let mut kv = front_door();
    let h = kv.keyvalue_open(&s("mystore")).unwrap();
    kv.keyvalue_set(&h, &s("a"), &vec![1]).unwrap();
    assert!(matches!(kv.keyvalue_open(&s("ghost")), Err(KeyvalueError::NotFound)));
    assert_eq!(kv.keyvalue_open(&s("mystore")).unwrap(), h);
}

#[test]
fn memory_backend_direct_use() {
    let mut m = MemoryImplementor::new(
        KeyvalueImplementors::Filesystem,
        &state(Resource::Keyvalue(KeyvalueResource::Filesystem)),
        &s("mystore"),
    );
    m.store(&s("a"), &vec![5, 6]);
    m.store(&s("a"), &vec![7]);
    assert_eq!(m.lookup(&s("a")).unwrap(), vec![7]);
    assert_eq!(m.key_list(), vec![s("a")]);
    m.remove(&s("a"));
    m.remove(&s("a"));
    assert!(matches!(m.lookup(&s("a")), Err(KeyvalueError::NotFound)));
}
