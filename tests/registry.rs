use singleton_manager::{Error, Factory, SingletonManager};
use std::ops::Deref;
use std::sync::Mutex;

struct SingletonService1 {
    something: String,
}

#[derive(Debug)]
pub struct MyService {
    message: String,
    guard: Mutex<()>,
}

impl MyService {
    pub fn set(&mut self, msg: &str) {
        let mut _guard = self.guard.lock().expect("Failed to get guard");
        self.message = msg.to_string();
    }

    pub fn get(&self) -> String {
        let _guard = self.guard.lock();
        self.message.clone()
    }
}

fn my_service_factory() -> Factory {
    Factory::new(|| {
        Box::new(MyService {
            message: "".to_string(),
            guard: Mutex::new(()),
        })
    })
}

#[test]
fn set_singleton() {
    let mut sm = SingletonManager::new();
    sm.set(
        "my_service_0",
        Box::new(SingletonService1 {
            something: "hello".to_string(),
        }),
    )
    .unwrap();
}

#[test]
fn set_get_singleton() {
    let mut sm = SingletonManager::new();
    sm.set(
        "my_service_1",
        SingletonService1 {
            something: "hello".to_string(),
        },
    )
    .unwrap();
    let var = sm
        .get::<SingletonService1>("my_service_1")
        .unwrap()
        .something
        .clone();

    assert_eq!("hello".to_string(), var);
}

#[test]
fn test_downcast() {
    let instance_name = "MyService";
    let service_name = "my_downcast_test";
    let my_function = Some(Box::new(|| {
        Box::new(MyService {
            message: "".to_string(),
            guard: Mutex::new(()),
        })
    }));
    my_function
        .as_ref()
        .ok_or_else(|| Error::NoFactoryFunctionAvailable(service_name.to_string()))
        .map(|f| (instance_name, f))
        .map(|(instance, factory)| {
            let func = factory.deref();
            let output = func();
            (instance, output as Box<MyService>)
        })
        .map(|(_instance_name, service)| service)
        .map(|s| println!("{:?}", s))
        .ok();
}

#[test]
fn test_setting_and_getting_from_example() {
    let mut sm = SingletonManager::new();
    sm.set(
        "my_service",
        MyService {
            message: "".to_string(),
            guard: Mutex::new(()),
        },
    )
    .ok();

    let service = sm
        .get::<MyService>("my_service")
        .expect("Failed to get service");
    service.set("My Message");

    let different_service = sm
        .get::<MyService>("my_service")
        .expect("Failed to get service");
    assert_eq!("My Message".to_string(), different_service.get());
}

#[test]
fn test_setting_and_getting_from_example_factory() {
    let mut sm = SingletonManager::new();
    sm.set_factory("my_service_factory", my_service_factory()).ok();

    let service = sm.get::<MyService>("my_service_factory").unwrap();
    service.set("My Message");

    let different_service = sm.get::<MyService>("my_service_factory").unwrap();
    assert_eq!("My Message".to_string(), different_service.get());
}

#[test]
fn test_setting_and_getting_from_example_default_factory() {
    let mut sm = SingletonManager::new();
    let service: &mut MyService = sm
        .get_default("my_default_service_factory", my_service_factory())
        .unwrap();
    service.set("My Message");

    assert_eq!("My Message".to_string(), service.get());
}
