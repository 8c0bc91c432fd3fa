use phab_form::api::{Cursor, Info, Lookup, Query, Type};
use phab_form::encode::encode;
use phab_form::fixtures::{default_status, priority, status, user, ProjectColor, ProjectIcon, Special};
use phab_form::mock::{
    authorize, Auth, Constraint, ConstraintError, Info as InfoRequest, Lookup as LookupRequest,
    Search,
};
use phab_form::params::Params;
use phab_form::phid::{Phid, PhidType};

fn pairs(expected: &[(&str, &str)]) -> Vec<(String, String)> {
    expected.iter().map(|(k, v)| (k.to_string(), v.to_string())).collect()
}

#[test]
fn phid_text_and_randomness() {
    let p = Phid::new_task();
    let s = p.to_string();
    assert!(s.starts_with("PHID-TASK-"));
    let id = &s["PHID-TASK-".len()..];
    assert_eq!(id.len(), 21);
    assert!(id.chars().all(|c| c.is_ascii_digit() || c.is_ascii_lowercase()));
    assert!(p.eq_str(&s));
    assert!(!p.eq_str("PHID-TASK-x"));
    assert_eq!(Phid::new_user().ty, PhidType::User);
    assert_eq!(Phid::new_project().ty, PhidType::Project);
    assert_eq!(Phid::new_column().ty, PhidType::Column);
    assert_eq!(PhidType::Column.code(), "PCOL");
}

#[test]
fn fixed_phid_text() {
    let p = Phid { ty: PhidType::User, id: "abc".to_string() };
    assert_eq!(p.to_string(), "PHID-USER-abc");
}

#[test]
fn user_builder() {
    let u = user().full_name("Test User").name("user").build().unwrap();
    assert_eq!(u.full_name, "Test User");
    assert_eq!(u.name, "user");
    assert_eq!(u.phid.ty, PhidType::User);
    assert_eq!(user().name("user").build().err().unwrap(), "`full_name` must be initialized");
    assert_eq!(user().full_name("x").build().err().unwrap(), "`name` must be initialized");
}

#[test]
fn status_and_priority_builders() {
    let s = status().value("open").name("Open").special(Special::Default).build().unwrap();
    assert_eq!(s.value, "open");
    assert_eq!(s.name, "Open");
    assert_eq!(s.color, None);
    assert_eq!(s.special, Some(Special::Default));
    assert!(!s.closed);
    assert!(status().value("x").closed(true).name("y").build().unwrap().closed);
    assert_eq!(status().name("x").build().err().unwrap(), "`value` must be initialized");
    let p = priority().value(50).name("Normal").color("orange").build().unwrap();
    assert_eq!((p.value, p.name.as_str(), p.color.as_str()), (50, "Normal", "orange"));
    assert_eq!(priority().value(1).name("n").build().err().unwrap(), "`color` must be initialized");
}

#[test]
fn project_defaults() {
    let i = ProjectIcon::default();
    assert_eq!((i.key.as_str(), i.name.as_str(), i.icon.as_str()), ("organization", "Organization", "fa-building"));
    let c = ProjectColor::default();
    assert_eq!(c.key, "disabled");
    assert_eq!(c.name, None);
}

#[test]
fn requests_encode() {
    let info = Info { task_id: 100 };
    assert_eq!(encode(&info.to_value()).unwrap(), pairs(&[("task_id", "100")]));
    let lookup = Lookup { names: vec!["T100".to_string(), "T200".to_string()] };
    assert_eq!(encode(&lookup.to_value()).unwrap(), pairs(&[("names[0]", "T100"), ("names[1]", "T200")]));
    let query = Query { phids: vec![] };
    assert_eq!(encode(&query.to_value()).unwrap(), pairs(&[]));
    let cursor = Cursor { before: None, after: Some("7".to_string()), limit: 100, order: None };
    assert_eq!(encode(&cursor.to_value()).unwrap(), pairs(&[("after", "7"), ("limit", "100")]));
    assert_eq!(Type::TaskSubtask.name(), "task.subtask");
    assert_eq!(encode(&Type::TaskParent.to_value()).unwrap(), pairs(&[("", "task.parent")]));
}

#[test]
fn mock_reads_requests() {
    let p = Params::new(b"api.token=secret&task_id=100").unwrap();
    assert_eq!(authorize(&p, "secret"), Auth::Granted);
    assert_eq!(authorize(&p, "other"), Auth::Incorrect);
    assert_eq!(authorize(&Params::new(b"x=1").unwrap(), "secret"), Auth::Missing);
    assert_eq!(InfoRequest::task_id(&p), Some(100));
    assert_eq!(InfoRequest::task_id(&Params::new(b"task_id=x").unwrap()), None);
    assert_eq!(InfoRequest::task_id(&Params::new(b"task_id=4294967296").unwrap()), None);
    assert_eq!(LookupRequest::task_number("T200"), Some(200));
    assert_eq!(LookupRequest::task_number("P200"), None);
    assert_eq!(LookupRequest::task_number("T"), None);
}

#[test]
fn phid_parse() {
    let p = Phid::parse("PHID-PROJ-abc-def").unwrap();
    assert_eq!(p.ty, PhidType::Project);
    assert_eq!(p.id, "abc-def");
    assert!(Phid::parse("PHID-PROJabc").is_none());
    assert!(Phid::parse("PHID-XXXX-abc").is_none());
    assert!(Phid::parse("PHIX-TASK-abc").is_none());
    let q: Phid = "PHID-TASK-".parse().unwrap();
    assert_eq!((q.ty, q.id.as_str()), (PhidType::Task, ""));
    let fresh = Phid::new_column();
    assert_eq!(Phid::parse(&fresh.to_string()).unwrap(), fresh);
}

#[test]
fn search_reads_constraints() {
    let p = Params::new(b"constraints[ids][0]=100&constraints[ids][1]=200&attachments[projects]=true").unwrap();
    assert_eq!(Search::attachment(&p, "projects"), Some(true));
    assert_eq!(Search::attachment(&p, "columns"), Some(false));
    match Search::constraint(&p) {
        Ok(Constraint::Ids(ids)) => assert_eq!(ids, vec![100, 200]),
        _ => panic!("expected ids"),
    }
    let p = Params::new(b"constraints[phids][0]=PHID-TASK-abc&attachments[columns]=yes").unwrap();
    assert_eq!(Search::attachment(&p, "columns"), None);
    match Search::constraint(&p) {
        Ok(Constraint::Phids(phids)) => assert_eq!(phids[0].to_string(), "PHID-TASK-abc"),
        _ => panic!("expected phids"),
    }
    let both = Params::new(b"constraints[phids][0]=PHID-TASK-abc&constraints[ids][0]=1").unwrap();
    assert_eq!(Search::constraint(&both).err(), Some(ConstraintError::Both));
    assert_eq!(Search::constraint(&Params::new(b"").unwrap()).err(), Some(ConstraintError::Neither));
    let bad = Params::new(b"constraints[ids][0]=x").unwrap();
    assert_eq!(Search::constraint(&bad).err(), Some(ConstraintError::BadId));
    let bad = Params::new(b"constraints[phids][0]=x").unwrap();
    assert_eq!(Search::constraint(&bad).err(), Some(ConstraintError::BadPhid));
}

#[test]
fn default_status_is_first_marked() {
    let open = status().value("open").name("Open").build().unwrap();
    let a = status().value("a").name("A").special(Special::Default).build().unwrap();
    let b = status().value("b").name("B").special(Special::Default).build().unwrap();
    let all = vec![open.clone(), a, b];
    assert_eq!(default_status(&all).unwrap().value, "a");
    assert!(default_status(&vec![open]).is_none());
}
