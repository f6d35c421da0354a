use libmdns::name::Name;
use libmdns::services::{ServiceData, ServicesInner};

fn svc(name: &str, typ: &str, port: u16) -> ServiceData {
    ServiceData {
        name: Name::from_str(name).unwrap(),
        typ: Name::from_str(typ).unwrap(),
        port,
        txt: vec![0],
    }
}

#[test]
fn register_and_find() {
    let mut services = ServicesInner::new("host.local").unwrap();
    assert_eq!(&services.get_hostname().to_string()[..], "host.local");
    let a = services.register(svc("a._http._tcp.local", "_http._tcp.local", 80));
    let b = services.register(svc("b._ssh._tcp.local", "_ssh._tcp.local", 22));
    assert_ne!(a, b);
    let found = services
        .find_by_name(&Name::from_str("a._http._tcp.local").unwrap())
        .unwrap();
    assert_eq!(found.port, 80);
    assert_eq!(&found.typ.to_string()[..], "_http._tcp.local");
    assert!(services
        .find_by_name(&Name::from_str("c._http._tcp.local").unwrap())
        .is_none());
}

#[test]
fn find_by_type_keeps_insertion_order() {
    let mut services = ServicesInner::new("host.local").unwrap();
    services.register(svc("one._http._tcp.local", "_http._tcp.local", 1));
    services.register(svc("skip._ssh._tcp.local", "_ssh._tcp.local", 2));
    services.register(svc("two._http._tcp.local", "_http._tcp.local", 3));
    let matches = services.find_by_type(&Name::from_str("_http._tcp.local").unwrap());
    assert_eq!(matches.len(), 2);
    assert_eq!(matches[0].port, 1);
    assert_eq!(matches[1].port, 3);
    assert_eq!(&matches[0].name.to_string()[..], "one._http._tcp.local");
    assert_eq!(&matches[1].name.to_string()[..], "two._http._tcp.local");
}

#[test]
fn all_types_are_distinct_and_ordered() {
    let mut services = ServicesInner::new("host.local").unwrap();
    services.register(svc("one._http._tcp.local", "_http._tcp.local", 1));
    services.register(svc("two._http._tcp.local", "_http._tcp.local", 2));
    services.register(svc("three._ssh._tcp.local", "_ssh._tcp.local", 3));
    let types = services.all_types();
    assert_eq!(types.len(), 2);
    assert_eq!(&types[0].to_string()[..], "_http._tcp.local");
    assert_eq!(&types[1].to_string()[..], "_ssh._tcp.local");
}

#[test]
fn unregister_removes_exactly_one_service() {
    let mut services = ServicesInner::new("host.local").unwrap();
    let a = services.register(svc("a._http._tcp.local", "_http._tcp.local", 80));
    let _b = services.register(svc("b._http._tcp.local", "_http._tcp.local", 81));
    let removed = services.unregister(a);
    assert_eq!(removed.port, 80);
    assert_eq!(&removed.name.to_string()[..], "a._http._tcp.local");
    assert!(services
        .find_by_name(&Name::from_str("a._http._tcp.local").unwrap())
        .is_none());
    let left = services.find_by_type(&Name::from_str("_http._tcp.local").unwrap());
    assert_eq!(left.len(), 1);
    assert_eq!(left[0].port, 81);
}

#[test]
fn hostname_must_encode_and_fit() {
    assert!(ServicesInner::new("").is_err());
    assert!(ServicesInner::new("bad..dots").is_err());
    let long = "ab.".repeat(21845) + "ab";
    assert!(ServicesInner::new(&long).is_err());
}

#[test]
fn registered_ids_stay_unique() {
    let mut services = ServicesInner::new("host.local").unwrap();
    let mut ids = Vec::new();
    for i in 0..20u16 {
        let name = format!("s{}._x._tcp.local", i);
        ids.push(services.register(svc(&name, "_x._tcp.local", i)));
    }
    for i in 0..ids.len() {
        for j in 0..i {
            assert_ne!(ids[i], ids[j]);
        }
    }
}
