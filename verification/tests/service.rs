use openstranded_plugin_api::{ServiceError, ServiceRegistry};

struct TestService;

impl TestService {
    fn call(&self, method: &str, _args: &[String]) -> Result<String, ServiceError> {
        match method {
            "ping" => Ok("pong".into()),
            _ => Err(ServiceError::UnknownMethod(method.into())),
        }
    }
}

#[test]
fn test_register_and_get() {
    let mut registry = ServiceRegistry::new();
    registry.register("test", Box::new(TestService)).unwrap();
    let svc = registry.get("test").unwrap();
    let result = svc.call("ping", &[]).unwrap();
    assert_eq!(result, String::from("pong"));
}

#[test]
fn test_get_unknown_domain() {
    let registry: ServiceRegistry<Box<TestService>> = ServiceRegistry::new();
    let result = registry.get("nonexistent");
    assert!(result.is_err());
}

#[test]
fn test_register_duplicate() {
    let mut registry = ServiceRegistry::new();
    registry.register("test", Box::new(TestService)).unwrap();
    let err = registry.register("test", Box::new(TestService)).unwrap_err();
    assert!(matches!(err, ServiceError::Internal(..)));
}

#[test]
fn test_has() {
    let mut registry = ServiceRegistry::new();
    assert!(!registry.has("test"));
    registry.register("test", Box::new(TestService)).unwrap();
    assert!(registry.has("test"));
}

#[test]
fn test_unregister() {
    let mut registry = ServiceRegistry::new();
    registry.register("test", Box::new(TestService)).unwrap();
    assert!(registry.unregister("test").is_some());
    assert!(!registry.has("test"));
}

#[test]
fn test_domains_iter() {
    let mut registry = ServiceRegistry::new();
    registry.register("a", Box::new(TestService)).unwrap();
    registry.register("b", Box::new(TestService)).unwrap();
    let domains: Vec<&str> = registry.domains();
    assert_eq!(domains.len(), 2);
    assert!(domains.contains(&"a"));
    assert!(domains.contains(&"b"));
}

#[test]
fn service_duplicate_keeps_first_and_says_why() {
    let mut registry = ServiceRegistry::new();
    registry.register("audio", 1u32).unwrap();
    match registry.register("audio", 2u32).unwrap_err() {
        ServiceError::Internal(msg) => {
            assert_eq!(msg, "service domain 'audio' is already registered")
        }
        other => panic!("unexpected error {other:?}"),
    }
    assert_eq!(registry.get("audio").copied().unwrap(), 1);
    assert_eq!(registry.len(), 1);
}

#[test]
fn service_unregister_undoes_register() {
    let mut registry = ServiceRegistry::default();
    registry.register("x", 5u8).unwrap();
    assert_eq!(registry.len(), 1);
    assert!(!registry.is_empty());
    assert_eq!(registry.unregister("x"), Some(5));
    assert_eq!(registry.unregister("x"), None);
    assert!(registry.is_empty());
    assert_eq!(registry.len(), 0);
    registry.register("x", 6u8).unwrap();
    assert_eq!(registry.get("x").copied().unwrap(), 6);
}

#[test]
fn service_get_unknown_names_the_domain() {
    let registry: ServiceRegistry<u8> = ServiceRegistry::new();
    match registry.get("nowhere").unwrap_err() {
        ServiceError::DomainNotFound(d) => assert_eq!(d, "nowhere"),
        other => panic!("unexpected error {other:?}"),
    }
}

#[test]
fn service_domains_in_registration_order() {
    let mut registry = ServiceRegistry::new();
    registry.register("b", 1u8).unwrap();
    registry.register("a", 2u8).unwrap();
    registry.register("c", 3u8).unwrap();
    assert!(registry.register("a", 4u8).is_err());
    assert_eq!(registry.domains(), vec!["b", "a", "c"]);
    registry.unregister("a");
    assert_eq!(registry.domains(), vec!["b", "c"]);
    registry.register("a", 5u8).unwrap();
    assert_eq!(registry.domains(), vec!["b", "c", "a"]);
}
