use recs::component::Component;
use recs::error::RecsError;
use recs::query::Query;
use recs::registry::Registry;
use recs::resource::{OptionalRes, OptionalResMut, Res, ResMut, Resource};
use recs::system::{FunctionSystem, Schedule};

#[derive(Debug, PartialEq)]
struct Position {
    x: f32,
    y: f32,
}

#[derive(Debug, PartialEq)]
struct Velocity {
    dx: f32,
    dy: f32,
}

#[derive(Debug, PartialEq)]
struct Time {
    delta: f32,
}

#[derive(Default, Debug, PartialEq)]
struct Counter {
    value: i32,
}

enum Value {
    Position(Position),
    Velocity(Velocity),
    Time(Time),
    Counter(Counter),
}

impl Component<Value> for Position {
    fn type_key() -> usize {
        0
    }

    fn spec_type_key() -> usize {
        0
    }

    fn spec_from_value(v: Value) -> Option<Self> {
        Self::from_value_owned(v)
    }

    fn into_value(self) -> Value {
        Value::Position(self)
    }

    fn from_value(v: &Value) -> Option<&Self> {
        match v {
            Value::Position(c) => Some(c),
            _ => None,
        }
    }

    fn from_value_mut(v: &mut Value) -> Option<&mut Self> {
        match v {
            Value::Position(c) => Some(c),
            _ => None,
        }
    }

    fn from_value_owned(v: Value) -> Option<Self> {
        match v {
            Value::Position(c) => Some(c),
            _ => None,
        }
    }
}

impl Component<Value> for Velocity {
    fn type_key() -> usize {
        1
    }

    fn spec_type_key() -> usize {
        1
    }

    fn spec_from_value(v: Value) -> Option<Self> {
        Self::from_value_owned(v)
    }

    fn into_value(self) -> Value {
        Value::Velocity(self)
    }

    fn from_value(v: &Value) -> Option<&Self> {
        match v {
            Value::Velocity(c) => Some(c),
            _ => None,
        }
    }

    fn from_value_mut(v: &mut Value) -> Option<&mut Self> {
        match v {
            Value::Velocity(c) => Some(c),
            _ => None,
        }
    }

    fn from_value_owned(v: Value) -> Option<Self> {
        match v {
            Value::Velocity(c) => Some(c),
            _ => None,
        }
    }
}

impl Resource<Value> for Time {
    fn type_key() -> usize {
        0
    }

    fn spec_type_key() -> usize {
        0
    }

    fn spec_from_value(v: Value) -> Option<Self> {
        Self::from_value_owned(v)
    }

    fn into_value(self) -> Value {
        Value::Time(self)
    }

    fn from_value(v: &Value) -> Option<&Self> {
        match v {
            Value::Time(c) => Some(c),
            _ => None,
        }
    }

    fn from_value_mut(v: &mut Value) -> Option<&mut Self> {
        match v {
            Value::Time(c) => Some(c),
            _ => None,
        }
    }

    fn from_value_owned(v: Value) -> Option<Self> {
        match v {
            Value::Time(c) => Some(c),
            _ => None,
        }
    }
}

impl Resource<Value> for Counter {
    fn type_key() -> usize {
        1
    }

    fn spec_type_key() -> usize {
        1
    }

    fn spec_from_value(v: Value) -> Option<Self> {
        Self::from_value_owned(v)
    }

    fn into_value(self) -> Value {
        Value::Counter(self)
    }

    fn from_value(v: &Value) -> Option<&Self> {
        match v {
            Value::Counter(c) => Some(c),
            _ => None,
        }
    }

    fn from_value_mut(v: &mut Value) -> Option<&mut Self> {
        match v {
            Value::Counter(c) => Some(c),
            _ => None,
        }
    }

    fn from_value_owned(v: Value) -> Option<Self> {
        match v {
            Value::Counter(c) => Some(c),
            _ => None,
        }
    }
}

fn movement_system(mut registry: Registry<Value>) -> Registry<Value> {
    let query = Query::new().with::<Value, Position>().with::<Value, Velocity>();
    for e in registry.query(&query) {
        let (dx, dy) = {
            let vel = registry.get_component::<Velocity>(e).unwrap();
            (vel.dx, vel.dy)
        };
        let pos = registry.get_component_mut::<Position>(e).unwrap();
        pos.x += dx;
        pos.y += dy;
    }
    registry
}

fn time_reader_system(mut registry: Registry<Value>) -> Registry<Value> {
    let delta = Res::new(registry.get_resource::<Time>().unwrap()).get().delta;
    let mut counter = ResMut::new(registry.get_resource_mut::<Counter>().unwrap());
    if delta > 0.0 {
        counter.get_mut().value += 1;
    }
    registry
}

fn optional_resource_system(mut registry: Registry<Value>) -> Registry<Value> {
    let present = OptionalRes::new(registry.get_resource::<Time>()).is_some();
    let counter = registry.get_resource_mut::<Counter>().unwrap();
    if present {
        counter.value = 10;
    } else {
        counter.value = -10;
    }
    registry
}

#[test]
fn test_system_with_query() {
    let mut registry = Registry::<Value>::new();
    let entity = registry.spawn((Position { x: 10.0, y: 0.0 }, Velocity { dx: 5.0, dy: 0.0 }));

    let mut schedule = Schedule::new();
    schedule.add_system(FunctionSystem::new(movement_system));
    schedule.run_systems(&mut registry).unwrap();

    let pos = registry.get_component::<Position>(entity).unwrap();
    assert_eq!(pos.x, 15.0);
}

#[test]
fn test_system_with_resources() {
    let mut registry = Registry::<Value>::new();
    registry.insert_resource(Time { delta: 0.1 });
    registry.init_resource::<Counter>();

    let mut schedule = Schedule::new();
    schedule.add_system(FunctionSystem::new(time_reader_system).needs::<Time>().needs::<Counter>());
    schedule.run_systems(&mut registry).unwrap();

    let counter = registry.get_resource::<Counter>().unwrap();
    assert_eq!(counter.value, 1);
}

#[test]
fn test_system_with_optional_resource_present() {
    let mut registry = Registry::<Value>::new();
    registry.insert_resource(Time { delta: 0.1 });
    registry.init_resource::<Counter>();

    let mut schedule = Schedule::new();
    schedule.add_system(FunctionSystem::new(optional_resource_system).needs::<Counter>());
    schedule.run_systems(&mut registry).unwrap();

    let counter = registry.get_resource::<Counter>().unwrap();
    assert_eq!(counter.value, 10);
}

#[test]
fn test_system_with_optional_resource_absent() {
    let mut registry = Registry::<Value>::new();
    registry.init_resource::<Counter>();

    let mut schedule = Schedule::new();
    schedule.add_system(FunctionSystem::new(optional_resource_system).needs::<Counter>());
    schedule.run_systems(&mut registry).unwrap();

    let counter = registry.get_resource::<Counter>().unwrap();
    assert_eq!(counter.value, -10);
}

#[test]
#[should_panic(expected = "Resource with type key 0 not found")]
fn test_system_panics_on_missing_required_resource() {
    let mut registry = Registry::<Value>::new();
    registry.init_resource::<Counter>();

    let mut schedule = Schedule::new();
    schedule.add_system(FunctionSystem::new(time_reader_system).needs::<Time>().needs::<Counter>());
    if let Err(e) = schedule.run_systems(&mut registry) {
        panic!("{}", e.message());
    }
}

#[test]
fn one_tick_adds_velocity_into_position() {
    let mut registry = Registry::<Value>::new();
    let entity = registry.spawn((Position { x: 0.0, y: 0.0 }, Velocity { dx: 1.0, dy: 0.0 }));
    let mut schedule = Schedule::new();
    schedule.add_system(FunctionSystem::new(movement_system));
    assert_eq!(schedule.run_systems(&mut registry), Ok(()));
    assert_eq!(registry.get_component::<Position>(entity), Some(&Position { x: 1.0, y: 0.0 }));
}

#[test]
fn missing_mandatory_resource_stops_the_run_and_names_the_type() {
    let mut registry = Registry::<Value>::new();
    registry.init_resource::<Counter>();
    let mut schedule = Schedule::new();
    schedule.add_system(FunctionSystem::new(optional_resource_system).needs::<Counter>());
    schedule.add_system(FunctionSystem::new(time_reader_system).needs::<Time>().needs::<Counter>());
    schedule.add_system(FunctionSystem::new(optional_resource_system).needs::<Counter>());
    registry.get_resource_mut::<Counter>().unwrap().value = 5;
    assert_eq!(schedule.run_systems(&mut registry), Err(RecsError::MissingResource(0)));
    assert_eq!(registry.get_resource::<Counter>().unwrap().value, -10);
}

#[test]
fn systems_run_in_registration_order_and_see_earlier_changes() {
    let mut registry = Registry::<Value>::new();
    let entity = registry.spawn((Position { x: 0.0, y: 0.0 }, Velocity { dx: 2.0, dy: 1.0 }));
    registry.insert_resource(Counter { value: 0 });
    let mut schedule = Schedule::new();
    schedule.add_system(FunctionSystem::new(movement_system));
    schedule.add_system(FunctionSystem::new(|mut registry: Registry<Value>| -> Registry<Value> {
        let seen = registry.query(&Query::new().with::<Value, Position>());
        let px = registry.get_component::<Position>(seen[0]).unwrap().x;
        registry.get_resource_mut::<Counter>().unwrap().value = px as i32;
        registry
    }));
    assert_eq!(schedule.system_count(), 2);
    schedule.run_systems(&mut registry).unwrap();
    schedule.run_systems(&mut registry).unwrap();
    assert_eq!(registry.get_component::<Position>(entity), Some(&Position { x: 4.0, y: 2.0 }));
    assert_eq!(registry.get_resource::<Counter>().unwrap().value, 4);
    schedule.clear_systems();
    assert_eq!(schedule.system_count(), 0);
}

#[test]
fn parameters_are_fetched_from_the_registry() {
    let mut registry = Registry::<Value>::new();
    assert_eq!(Res::<Time>::from_registry(&registry).err(), Some(RecsError::MissingResource(0)));
    assert!(OptionalRes::<Time>::from_registry(&registry).is_none());
    assert!(OptionalResMut::<Counter>::from_registry(&mut registry).is_none());
    registry.insert_resource(Time { delta: 0.5 });
    registry.insert_resource(Counter { value: 1 });
    assert_eq!(Res::<Time>::from_registry(&registry).unwrap().delta, 0.5);
    assert_eq!(OptionalRes::<Time>::from_registry(&registry).as_ref(), Some(&Time { delta: 0.5 }));
    {
        let mut counter = ResMut::<Counter>::from_registry(&mut registry).unwrap();
        counter.get_mut().value += 41;
    }
    {
        let mut counter = OptionalResMut::<Counter>::from_registry(&mut registry);
        counter.as_mut().unwrap().value += 1;
    }
    assert_eq!(registry.get_resource::<Counter>(), Some(&Counter { value: 43 }));
}

#[test]
fn three_component_bundle_attaches_all() {
    let mut registry = Registry::<Value>::new();
    let e = registry.spawn((Position { x: 1.0, y: 2.0 }, Velocity { dx: 3.0, dy: 4.0 }, Position { x: 5.0, y: 6.0 }));
    assert_eq!(registry.get_component::<Position>(e), Some(&Position { x: 5.0, y: 6.0 }));
    assert_eq!(registry.get_component::<Velocity>(e), Some(&Velocity { dx: 3.0, dy: 4.0 }));
}

#[test]
fn an_empty_schedule_succeeds_and_changes_nothing() {
    let mut registry = Registry::<Value>::new();
    let e = registry.spawn((Position { x: 2.0, y: 3.0 },));
    let schedule = Schedule::<Value>::new();
    assert_eq!(schedule.run_systems(&mut registry), Ok(()));
    assert_eq!(registry.get_component::<Position>(e), Some(&Position { x: 2.0, y: 3.0 }));
    assert!(!registry.has_resource::<Time>());
}
