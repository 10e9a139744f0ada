use recs::component::Component;
use recs::error::RecsError;
use recs::query::Query;
use recs::registry::Registry;
use recs::resource::Resource;

#[derive(Debug, PartialEq)]
struct Position {
    x: i32,
}

#[derive(Debug, PartialEq)]
struct Velocity {
    dx: i32,
}

#[derive(Debug, PartialEq)]
struct GameTime {
    time: f32,
}

#[derive(Debug, PartialEq, Default)]
struct Settings {
    level: u8,
}

enum Value {
    Position(Position),
    Velocity(Velocity),
    GameTime(GameTime),
    Settings(Settings),
    Marker(Marker),
}

#[derive(Debug, PartialEq)]
struct Marker;

impl Component<Value> for Marker {
    fn type_key() -> usize {
        0
    }

    fn spec_type_key() -> usize {
        0
    }

    fn spec_from_value(v: Value) -> Option<Self> {
        Self::from_value_owned(v)
    }

    fn into_value(self) -> Value {
        Value::Marker(self)
    }

    fn from_value(v: &Value) -> Option<&Self> {
        match v {
            Value::Marker(c) => Some(c),
            _ => None,
        }
    }

    fn from_value_mut(v: &mut Value) -> Option<&mut Self> {
        match v {
            Value::Marker(c) => Some(c),
            _ => None,
        }
    }

    fn from_value_owned(v: Value) -> Option<Self> {
        match v {
            Value::Marker(c) => Some(c),
            _ => None,
        }
    }
}

impl Component<Value> for Position {
    fn type_key() -> usize {
        0
    }

    fn spec_type_key() -> usize {
        0
    }

    fn spec_from_value(v: Value) -> Option<Self> {
        Self::from_value_owned(v)
    }

    fn into_value(self) -> Value {
        Value::Position(self)
    }

    fn from_value(v: &Value) -> Option<&Self> {
        match v {
            Value::Position(c) => Some(c),
            _ => None,
        }
    }

    fn from_value_mut(v: &mut Value) -> Option<&mut Self> {
        match v {
            Value::Position(c) => Some(c),
            _ => None,
        }
    }

    fn from_value_owned(v: Value) -> Option<Self> {
        match v {
            Value::Position(c) => Some(c),
            _ => None,
        }
    }
}

impl Component<Value> for Velocity {
    fn type_key() -> usize {
        1
    }

    fn spec_type_key() -> usize {
        1
    }

    fn spec_from_value(v: Value) -> Option<Self> {
        Self::from_value_owned(v)
    }

    fn into_value(self) -> Value {
        Value::Velocity(self)
    }

    fn from_value(v: &Value) -> Option<&Self> {
        match v {
            Value::Velocity(c) => Some(c),
            _ => None,
        }
    }

    fn from_value_mut(v: &mut Value) -> Option<&mut Self> {
        match v {
            Value::Velocity(c) => Some(c),
            _ => None,
        }
    }

    fn from_value_owned(v: Value) -> Option<Self> {
        match v {
            Value::Velocity(c) => Some(c),
            _ => None,
        }
    }
}

impl Resource<Value> for GameTime {
    fn type_key() -> usize {
        0
    }

    fn spec_type_key() -> usize {
        0
    }

    fn spec_from_value(v: Value) -> Option<Self> {
        Self::from_value_owned(v)
    }

    fn into_value(self) -> Value {
        Value::GameTime(self)
    }

    fn from_value(v: &Value) -> Option<&Self> {
        match v {
            Value::GameTime(c) => Some(c),
            _ => None,
        }
    }

    fn from_value_mut(v: &mut Value) -> Option<&mut Self> {
        match v {
            Value::GameTime(c) => Some(c),
            _ => None,
        }
    }

    fn from_value_owned(v: Value) -> Option<Self> {
        match v {
            Value::GameTime(c) => Some(c),
            _ => None,
        }
    }
}

impl Resource<Value> for Settings {
    fn type_key() -> usize {
        1
    }

    fn spec_type_key() -> usize {
        1
    }

    fn spec_from_value(v: Value) -> Option<Self> {
        Self::from_value_owned(v)
    }

    fn into_value(self) -> Value {
        Value::Settings(self)
    }

    fn from_value(v: &Value) -> Option<&Self> {
        match v {
            Value::Settings(c) => Some(c),
            _ => None,
        }
    }

    fn from_value_mut(v: &mut Value) -> Option<&mut Self> {
        match v {
            Value::Settings(c) => Some(c),
            _ => None,
        }
    }

    fn from_value_owned(v: Value) -> Option<Self> {
        match v {
            Value::Settings(c) => Some(c),
            _ => None,
        }
    }
}

#[test]
fn test_spawn_and_get_component() {
    let mut registry = Registry::<Value>::new();
    let entity = registry.spawn((Position { x: 10 }, Velocity { dx: -1 }));

    let pos = registry.get_component::<Position>(entity).unwrap();
    assert_eq!(pos, &Position { x: 10 });

    let vel = registry.get_component::<Velocity>(entity).unwrap();
    assert_eq!(vel, &Velocity { dx: -1 });
}

#[test]
fn test_destroy_entity_removes_all_components() {
    let mut registry = Registry::<Value>::new();
    let entity = registry.spawn((Position { x: 10 }, Velocity { dx: -1 }));

    assert!(registry.get_component::<Position>(entity).is_some());

    registry.destroy_entity(entity).unwrap();

    assert!(registry.get_component::<Position>(entity).is_none());
    assert!(registry.get_component::<Velocity>(entity).is_none());
}

#[test]
fn test_simple_query() {
    let mut registry = Registry::<Value>::new();
    registry.spawn((Position { x: 1 },));
    registry.spawn((Position { x: 2 }, Velocity { dx: 10 }));
    registry.spawn((Velocity { dx: 20 },));

    let mut count = 0;
    for e in registry.query(&Query::new().with::<Value, Position>()) {
        let pos = registry.get_component::<Position>(e).unwrap();
        assert!(pos.x == 1 || pos.x == 2);
        count += 1;
    }
    assert_eq!(count, 2);
}

#[test]
fn test_resource_management() {
    let mut registry = Registry::<Value>::new();
    registry.insert_resource(GameTime { time: 0.0 });

    let time_res = registry.get_resource::<GameTime>().unwrap();
    assert_eq!(time_res, &GameTime { time: 0.0 });

    let time_res_mut = registry.get_resource_mut::<GameTime>().unwrap();
    time_res_mut.time = 1.0;

    assert_eq!(registry.get_resource::<GameTime>().unwrap().time, 1.0);
}

#[test]
fn destroyed_entity_leaves_every_store_and_its_slot_is_clean_on_reuse() {
    let mut registry = Registry::<Value>::new();
    let a = registry.spawn((Position { x: 1 }, Velocity { dx: 2 }));
    let b = registry.spawn((Position { x: 3 },));
    registry.destroy_entity(a).unwrap();
    assert_eq!(registry.get_component::<Position>(b), Some(&Position { x: 3 }));
    let c = registry.create_entity();
    assert_eq!(c.id(), a.id());
    assert!(c.generation() > a.generation());
    assert!(registry.get_component::<Position>(c).is_none());
    assert!(registry.get_component::<Velocity>(c).is_none());
    let rows = registry.query(&Query::new().with::<Value, Position>());
    assert_eq!(rows, vec![b]);
}

#[test]
fn operations_on_stale_entities_fail() {
    let mut registry = Registry::<Value>::new();
    let a = registry.spawn((Position { x: 1 },));
    registry.destroy_entity(a).unwrap();
    assert_eq!(registry.destroy_entity(a), Err(RecsError::InvalidEntity(a)));
    assert_eq!(registry.add_component(a, Velocity { dx: 1 }), Err(RecsError::InvalidEntity(a)));
    assert_eq!(registry.remove_component::<Position>(a), Err(RecsError::InvalidEntity(a)));
    assert!(registry.get_component_mut::<Position>(a).is_none());
}

#[test]
fn remove_component_returns_it_or_reports_absence() {
    let mut registry = Registry::<Value>::new();
    let a = registry.spawn((Position { x: 4 },));
    assert_eq!(registry.remove_component::<Velocity>(a), Err(RecsError::ComponentNotFound(1)));
    assert_eq!(registry.remove_component::<Position>(a), Ok(Position { x: 4 }));
    assert_eq!(registry.remove_component::<Position>(a), Err(RecsError::ComponentNotFound(0)));
    assert!(registry.get_component::<Position>(a).is_none());
}

#[test]
fn add_component_replaces_the_previous_value() {
    let mut registry = Registry::<Value>::new();
    let a = registry.create_entity();
    registry.register_component::<Position>();
    registry.register_component::<Position>();
    assert!(registry.get_component::<Position>(a).is_none());
    registry.add_component(a, Position { x: 1 }).unwrap();
    registry.add_component(a, Position { x: 2 }).unwrap();
    assert_eq!(registry.get_component::<Position>(a), Some(&Position { x: 2 }));
    assert_eq!(registry.query(&Query::new().with::<Value, Position>()), vec![a]);
}

#[test]
fn resources_on_the_registry() {
    let mut registry = Registry::<Value>::new();
    assert!(!registry.has_resource::<Settings>());
    registry.init_resource::<Settings>();
    assert_eq!(registry.get_resource::<Settings>(), Some(&Settings { level: 0 }));
    registry.get_resource_mut::<Settings>().unwrap().level = 3;
    registry.init_resource::<Settings>();
    assert_eq!(registry.get_resource::<Settings>(), Some(&Settings { level: 3 }));
    assert_eq!(registry.remove_resource::<Settings>(), Some(Settings { level: 3 }));
    assert!(!registry.has_resource::<Settings>());
    assert_eq!(registry.remove_resource::<GameTime>(), None);
}

#[test]
fn removing_a_type_that_shares_a_key_leaves_the_other_in_place() {
    let mut registry = Registry::<Value>::new();
    let a = registry.spawn((Position { x: 7 },));
    assert_eq!(registry.remove_component::<Marker>(a), Err(RecsError::ComponentNotFound(0)));
    assert_eq!(registry.get_component::<Position>(a), Some(&Position { x: 7 }));
    assert!(registry.get_component::<Marker>(a).is_none());
}

#[test]
fn a_bundle_of_five_attaches_the_last_of_each_type() {
    let mut registry = Registry::<Value>::new();
    let e = registry.spawn((
        Position { x: 1 },
        Velocity { dx: 2 },
        Position { x: 3 },
        Velocity { dx: 4 },
        Position { x: 5 },
    ));
    assert_eq!(registry.get_component::<Position>(e), Some(&Position { x: 5 }));
    assert_eq!(registry.get_component::<Velocity>(e), Some(&Velocity { dx: 4 }));
}

#[test]
fn destroying_an_invalid_handle_with_the_largest_generation_is_an_error() {
    let mut registry = Registry::<Value>::new();
    let _a = registry.create_entity();
    let forged = recs::entity::Entity::new(0, u32::MAX);
    assert_eq!(registry.destroy_entity(forged), Err(RecsError::InvalidEntity(forged)));
}
