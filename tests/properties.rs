use singleton_manager::manager::downcast_outcome;
use singleton_manager::{Error, Factory, SingletonManager, SingletonProvider};
use std::cell::Cell;
use std::rc::Rc;

struct Counter {
    count: i64,
}

struct Service {
    msg: String,
}

fn service_factory() -> Factory {
    Factory::new(|| Box::new(Service { msg: "".to_string() }))
}

fn counting_factory(runs: Rc<Cell<u32>>) -> Factory {
    Factory::new(move || {
        runs.set(runs.get() + 1);
        Box::new(Counter { count: 7 })
    })
}

#[test]
fn second_value_registration_is_refused() {
    let mut sm = SingletonManager::new();
    assert!(sm.set("a", 1i64).is_ok());
    assert_eq!(sm.set("a", 2i64).err(), Some(Error::ServiceAlreadyExists));
    assert_eq!(sm.set("a", "other type".to_string()).err(), Some(Error::ServiceAlreadyExists));
    assert_eq!(*sm.get::<i64>("a").unwrap(), 1);
}

#[test]
fn registration_after_factory_is_refused() {
    let mut sm = SingletonManager::new();
    assert!(sm.set_factory("f", service_factory()).is_ok());
    assert_eq!(sm.set("f", 3u8).err(), Some(Error::ServiceAlreadyExists));
    assert!(matches!(sm.set_factory("f", service_factory()), Err(Error::ServiceAlreadyExists)));
    assert!(sm.get::<Service>("f").is_ok());
}

#[test]
fn factory_after_value_is_refused() {
    let mut sm = SingletonManager::new();
    sm.set("v", 5u32).unwrap();
    assert!(matches!(sm.set_factory("v", service_factory()), Err(Error::ServiceAlreadyExists)));
    assert_eq!(*sm.get::<u32>("v").unwrap(), 5);
}

#[test]
fn counter_scenario() {
    let mut sm = SingletonManager::new();
    sm.set("c", Counter { count: 0 }).unwrap();
    let c = sm.get::<Counter>("c").unwrap();
    c.count += 1;
    let c = sm.get::<Counter>("c").unwrap();
    assert_eq!(c.count, 1);
    c.count += 1;
    let c = sm.get::<Counter>("c").unwrap();
    assert_eq!(c.count, 2);
}

#[test]
fn set_returns_the_stored_value() {
    let mut sm = SingletonManager::new();
    let c = sm.set("c", Counter { count: 10 }).unwrap();
    c.count = 11;
    assert_eq!(sm.get::<Counter>("c").unwrap().count, 11);
}

#[test]
fn factory_runs_once_and_lazily() {
    let runs = Rc::new(Cell::new(0u32));
    let mut sm = SingletonManager::new();
    sm.set_factory("lazy", counting_factory(runs.clone())).unwrap();
    assert_eq!(runs.get(), 0);
    assert!(sm.has("lazy"));
    let c = sm.get::<Counter>("lazy").unwrap();
    assert_eq!(c.count, 7);
    c.count = 8;
    assert_eq!(runs.get(), 1);
    assert_eq!(sm.get::<Counter>("lazy").unwrap().count, 8);
    assert_eq!(sm.get::<Counter>("lazy").unwrap().count, 8);
    assert_eq!(runs.get(), 1);
}

#[test]
fn factory_scenario() {
    let mut sm = SingletonManager::new();
    let s = sm.get_default::<Service>("svc", service_factory()).unwrap();
    s.msg = "hello".to_string();
    let again = sm.get::<Service>("svc").unwrap();
    assert_eq!(again.msg, "hello");
}

#[test]
fn get_default_keeps_existing_value() {
    let runs = Rc::new(Cell::new(0u32));
    let mut sm = SingletonManager::new();
    sm.set("c", Counter { count: 3 }).unwrap();
    let c = sm.get_default::<Counter>("c", counting_factory(runs.clone())).unwrap();
    assert_eq!(c.count, 3);
    assert_eq!(runs.get(), 0);
}

#[test]
fn mismatch_scenario() {
    let mut sm = SingletonManager::new();
    sm.set("x", 42i64).unwrap();
    assert_eq!(
        sm.get::<String>("x").err(),
        Some(Error::FailedToDowncastRefOfService("x".to_string()))
    );
    assert_eq!(*sm.get::<i64>("x").unwrap(), 42);
}

#[test]
fn mismatch_on_factory_value_keeps_it() {
    let runs = Rc::new(Cell::new(0u32));
    let mut sm = SingletonManager::new();
    sm.set_factory("m", counting_factory(runs.clone())).unwrap();
    assert_eq!(
        sm.get::<Service>("m").err(),
        Some(Error::FailedToDowncastRefOfService("m".to_string()))
    );
    assert_eq!(runs.get(), 1);
    assert_eq!(sm.get::<Counter>("m").unwrap().count, 7);
    assert_eq!(runs.get(), 1);
}

#[test]
fn unknown_name_is_not_found() {
    let mut sm = SingletonManager::new();
    assert!(!sm.has("nobody"));
    assert_eq!(
        sm.get::<i64>("nobody").err(),
        Some(Error::ServiceDoesNotExist("nobody".to_string()))
    );
    sm.set("somebody", 1i64).unwrap();
    assert!(sm.has("somebody"));
    assert!(!sm.has("nobody"));
    assert_eq!(
        sm.get::<i64>("nobody").err(),
        Some(Error::ServiceDoesNotExist("nobody".to_string()))
    );
}

#[test]
fn many_names_get_distinct_identities() {
    let mut sm = SingletonManager::new();
    for i in 0..200u64 {
        let name = format!("svc{}", i);
        assert!(sm.set(&name, i).is_ok());
    }
    for i in 0..200u64 {
        let name = format!("svc{}", i);
        assert_eq!(*sm.get::<u64>(&name).unwrap(), i);
    }
}

#[test]
fn empty_name_is_a_name() {
    let mut sm = SingletonManager::new();
    assert!(!sm.has(""));
    sm.set("", 9u8).unwrap();
    assert!(sm.has(""));
    assert_eq!(*sm.get::<u8>("").unwrap(), 9);
}

struct Greeter {
    greeting: String,
}

impl SingletonProvider for Greeter {
    type Output = Greeter;
    type Error = String;

    fn service() -> Result<&'static mut Self::Output, Self::Error> {
        Err("no global registry here".to_string())
    }

    fn get_name(&self) -> &'static str {
        "greeter"
    }

    fn get_service(&self) -> Result<Self::Output, Self::Error> {
        Ok(Greeter {
            greeting: self.greeting.clone(),
        })
    }
}

struct Broken;

impl SingletonProvider for Broken {
    type Output = Broken;
    type Error = String;

    fn service() -> Result<&'static mut Self::Output, Self::Error> {
        Err("unavailable".to_string())
    }

    fn get_name(&self) -> &'static str {
        "broken"
    }

    fn get_service(&self) -> Result<Self::Output, Self::Error> {
        Err("cannot build".to_string())
    }
}

#[test]
fn provide_registers_the_service() {
    let mut sm = SingletonManager::new();
    sm.provide(Greeter { greeting: "hi".to_string() }).unwrap();
    assert_eq!(sm.get::<Greeter>("greeter").unwrap().greeting, "hi");
    assert_eq!(
        sm.provide(Greeter { greeting: "again".to_string() }).err(),
        Some(Error::ServiceAlreadyExists)
    );
    assert_eq!(sm.get::<Greeter>("greeter").unwrap().greeting, "hi");
}

#[test]
fn provide_reports_build_error() {
    let mut sm = SingletonManager::new();
    assert_eq!(
        sm.provide(Broken).err(),
        Some(Error::UnknownError("cannot build".to_string()))
    );
    assert!(!sm.has("broken"));
}

#[test]
fn error_from_string() {
    assert_eq!(Error::from("boom".to_string()), Error::UnknownError("boom".to_string()));
}

#[test]
fn error_messages() {
    let s = || "svc".to_string();
    assert_eq!(Error::ServiceDoesNotExist(s()).message(), "Service `svc` does not exist");
    assert_eq!(Error::ServiceNotInstantiated(s()).message(), "Service `svc` is not instantiated");
    assert_eq!(Error::FailedToDowncastRefOfService(s()).message(), "Failed to downcast service svc");
    assert_eq!(Error::FailedToStoreService(s()).message(), "Service `svc` Could not be stored");
    assert_eq!(
        Error::NoFactoryFunctionAvailable(s()).message(),
        "Service `svc` Does not contain a Factory function"
    );
    assert_eq!(
        Error::SetFailedToReturnAServiceReference(s()).message(),
        "Storing the service `svc` failed to return a reference of the service"
    );
    assert_eq!(
        Error::FailedToDowncastFactoryOutput(s()).message(),
        "Failed to downcast Factory output for service svc"
    );
    assert_eq!(Error::NoServiceWithStorageRequest.message(), "No service with storage request");
    assert_eq!(Error::FailedToStoreServiceAlias.message(), "Service Could not be stored");
    assert_eq!(Error::MutexGotPoison.message(), "Mutex poison");
    assert_eq!(Error::ServiceAlreadyExists.message(), "Service already exists");
    assert_eq!(Error::FailedToStoreFactory.message(), "Failed to store factory");
    assert_eq!(Error::UnknownError(s()).message(), "An unknown error happened: svc");
}

#[test]
fn downcast_outcome_passes_reference_or_reports_mismatch() {
    let mut x = 5u32;
    let r = downcast_outcome(Some(&mut x), "n".to_string()).unwrap();
    *r = 6;
    assert_eq!(x, 6);
    assert_eq!(
        downcast_outcome::<u32>(None, "n".to_string()).err(),
        Some(Error::FailedToDowncastRefOfService("n".to_string()))
    );
}

#[test]
fn result_alias_carries_library_error() {
    let r: singleton_manager::Result<u8> = Err(Error::ServiceAlreadyExists);
    assert!(r.is_err());
}
