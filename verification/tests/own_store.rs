use reaxion::store::{Store, StoreRegistry};

#[derive(Default)]
struct Settings {
    volume: u8,
}

impl Store for Settings {
    fn kind(&self) -> u64 {
        77
    }

    fn id(&self) -> u64 {
        77
    }
}

#[test]
fn a_store_of_the_caller_can_be_registered() {
    let mut registry: StoreRegistry<Settings> = StoreRegistry::new();
    registry.get_or_create(77).volume = 3;
    assert_eq!(registry.get_or_create(77).volume, 3);
    assert!(registry.has(77));
    assert!(!registry.has(0));
    registry.register(Settings { volume: 9 });
    assert_eq!(registry.get(77).unwrap().volume, 9);
    assert_eq!(registry.count(), 1);
}
