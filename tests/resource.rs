use recs::resource::{OptionalRes, OptionalResMut, Res, ResMut, Resource, ResourceStorage};

#[derive(Debug, PartialEq)]
struct GameConfig {
    speed: f32,
    paused: bool,
}

#[derive(Debug, PartialEq, Default)]
struct Score(u32);

#[derive(Debug, PartialEq)]
enum Value {
    Config(GameConfig),
    Score(Score),
}

impl Resource<Value> for GameConfig {
    fn type_key() -> usize {
        0
    }

    fn spec_type_key() -> usize {
        0
    }

    fn spec_from_value(v: Value) -> Option<Self> {
        Self::from_value_owned(v)
    }

    fn into_value(self) -> Value {
        Value::Config(self)
    }

    fn from_value(v: &Value) -> Option<&Self> {
        match v {
            Value::Config(c) => Some(c),
            _ => None,
        }
    }

    fn from_value_mut(v: &mut Value) -> Option<&mut Self> {
        match v {
            Value::Config(c) => Some(c),
            _ => None,
        }
    }

    fn from_value_owned(v: Value) -> Option<Self> {
        match v {
            Value::Config(c) => Some(c),
            _ => None,
        }
    }
}

impl Resource<Value> for Score {
    fn type_key() -> usize {
        1
    }

    fn spec_type_key() -> usize {
        1
    }

    fn spec_from_value(v: Value) -> Option<Self> {
        Self::from_value_owned(v)
    }

    fn into_value(self) -> Value {
        Value::Score(self)
    }

    fn from_value(v: &Value) -> Option<&Self> {
        match v {
            Value::Score(s) => Some(s),
            _ => None,
        }
    }

    fn from_value_mut(v: &mut Value) -> Option<&mut Self> {
        match v {
            Value::Score(s) => Some(s),
            _ => None,
        }
    }

    fn from_value_owned(v: Value) -> Option<Self> {
        match v {
            Value::Score(s) => Some(s),
            _ => None,
        }
    }
}

#[test]
fn test_storage_new_is_empty() {
    let storage = ResourceStorage::<Value>::new();
    assert!(storage.is_empty());
    assert_eq!(storage.len(), 0);
}

#[test]
fn mod_test_insert_and_get() {
    let mut storage = ResourceStorage::<Value>::new();
    storage.insert(GameConfig {
        speed: 1.0,
        paused: false,
    });

    assert_eq!(storage.len(), 1);
    assert!(storage.contains::<GameConfig>());
    assert!(!storage.contains::<Score>());

    let config = storage.get::<GameConfig>().unwrap();
    assert_eq!(config.speed, 1.0);
    assert!(!config.paused);

    assert!(storage.get::<Score>().is_none());
}

#[test]
fn test_get_mut_and_modify() {
    let mut storage = ResourceStorage::<Value>::new();
    storage.insert(Score(100));

    let score = storage.get_mut::<Score>().unwrap();
    score.0 += 50;

    let updated_score = storage.get::<Score>().unwrap();
    assert_eq!(updated_score.0, 150);
}

#[test]
fn test_insert_overwrites_existing_resource() {
    let mut storage = ResourceStorage::<Value>::new();
    storage.insert(Score(50));
    assert_eq!(storage.get::<Score>().unwrap().0, 50);

    storage.insert(Score(100));
    assert_eq!(storage.len(), 1, "Length should not increase when overwriting.");
    assert_eq!(storage.get::<Score>().unwrap().0, 100);
}

#[test]
fn test_remove_resource() {
    let mut storage = ResourceStorage::<Value>::new();
    storage.insert(Score(99));

    assert!(storage.contains::<Score>());

    let removed_score = storage.remove::<Score>();
    assert_eq!(removed_score, Some(Score(99)));

    assert!(!storage.contains::<Score>());
    assert!(storage.get::<Score>().is_none());
    assert_eq!(storage.len(), 0);

    let removed_again = storage.remove::<Score>();
    assert!(removed_again.is_none());
}

#[test]
fn test_clear_removes_all_resources() {
    let mut storage = ResourceStorage::<Value>::new();
    storage.insert(GameConfig {
        speed: 2.0,
        paused: true,
    });
    storage.insert(Score(1000));

    assert_eq!(storage.len(), 2);
    storage.clear();
    assert_eq!(storage.len(), 0);
    assert!(storage.is_empty());
    assert!(!storage.contains::<GameConfig>());
    assert!(!storage.contains::<Score>());
}

#[test]
fn test_res_and_resmut_deref() {
    let mut config = GameConfig {
        speed: 1.0,
        paused: false,
    };

    let res_config = Res::new(&config);
    assert_eq!(res_config.speed, 1.0);
    assert!(!res_config.paused);
    assert_eq!(res_config.get(), &GameConfig { speed: 1.0, paused: false });

    let mut resmut_config = ResMut::new(&mut config);
    assert!(!resmut_config.paused);
    resmut_config.get_mut().paused = true;
    assert!(resmut_config.get().paused);

    assert!(config.paused);
}

#[test]
fn test_optional_res_wrapper() {
    let config = GameConfig {
        speed: 1.0,
        paused: false,
    };

    let opt_res_some = OptionalRes::new(Some(&config));
    assert!(opt_res_some.is_some());
    assert!(!opt_res_some.is_none());
    assert_eq!(opt_res_some.as_ref().unwrap(), &config);
    assert_eq!(opt_res_some.as_ref().unwrap().speed, 1.0);

    let opt_res_none: OptionalRes<GameConfig> = OptionalRes::new(None);
    assert!(opt_res_none.is_none());
    assert!(!opt_res_none.is_some());
    assert!(opt_res_none.as_ref().is_none());
}

#[test]
fn test_optional_res_mut_wrapper() {
    let mut config = GameConfig {
        speed: 1.0,
        paused: false,
    };

    let mut opt_res_mut_some = OptionalResMut::new(Some(&mut config));
    assert!(opt_res_mut_some.is_some());

    let inner_mut = opt_res_mut_some.as_mut();
    assert!(inner_mut.is_some());
    inner_mut.unwrap().speed = 99.0;

    assert_eq!(config.speed, 99.0);

    let mut opt_res_mut_none: OptionalResMut<GameConfig> = OptionalResMut::new(None);
    assert!(opt_res_mut_none.is_none());
    assert!(opt_res_mut_none.as_mut().is_none());
}

#[test]
fn overriding_a_resource_keeps_the_count() {
    let mut storage = ResourceStorage::<Value>::new();
    storage.insert(Score(1));
    storage.insert(GameConfig { speed: 0.5, paused: false });
    storage.insert(Score(2));
    storage.insert(Score(3));
    assert_eq!(storage.len(), 2);
    assert_eq!(storage.get::<Score>(), Some(&Score(3)));
    assert_eq!(storage.remove::<GameConfig>(), Some(GameConfig { speed: 0.5, paused: false }));
    assert_eq!(storage.len(), 1);
    assert!(storage.contains_key(1));
    assert!(!storage.contains_key(0));
    assert!(!storage.contains_key(42));
}

#[test]
fn removing_an_absent_type_keeps_the_stored_values() {
    let mut storage = ResourceStorage::<Value>::new();
    storage.insert(Score(5));
    assert!(storage.contains_key(1));
    assert_eq!(storage.len(), 1);
    assert_eq!(storage.get::<Score>(), Some(&Score(5)));
    assert_eq!(storage.remove::<GameConfig>(), None);
    assert_eq!(storage.len(), 1);
}
