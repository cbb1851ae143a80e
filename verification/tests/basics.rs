use titan_controller::communication::credentials::Credentials;
use titan_controller::communication::ssh::{
    clean_dir_command, get_hash_titan, mktemp_command, remote_source, send_files_command,
};
use titan_controller::handle_object::HandleObject;
use titan_controller::manage::status::get_active_nodes;
use titan_controller::paths::join;
use titan_controller::run::status::JobStatus;
use titan_controller::utils::job_id::JobIds;

#[test]
fn it_works() {
    let result = 2 + 2;
    assert_eq!(result, 4);
}

#[test]
fn parse_jobids_ranges_and_singles() {
    let ids = JobIds::parse_jobids("1,3-5").unwrap();
    assert_eq!(ids.ids, vec![1, 3, 4, 5]);
    assert_eq!(JobIds::parse_jobids("7").unwrap().ids, vec![7]);
}

#[test]
fn parse_jobids_empty_range_and_errors() {
    assert_eq!(JobIds::parse_jobids("5-4").unwrap().ids, Vec::<usize>::new());
    assert!(JobIds::parse_jobids("a").is_err());
    assert!(JobIds::parse_jobids("1,").is_err());
    assert!(JobIds::parse_jobids("1-x").is_err());
}

#[test]
fn credentials_parse() {
    let c = Credentials::parse("alice:secret").unwrap();
    assert_eq!(c.username, "alice");
    assert_eq!(c.password, "secret");
    assert!(Credentials::parse("nocolon").is_none());
    assert!(Credentials::parse("a:b:c").is_none());
}

#[test]
fn active_nodes_ranges_are_half_open() {
    assert_eq!(get_active_nodes("titan[01-03,07] up\n"), Some(vec![1, 2, 7]));
    assert_eq!(get_active_nodes("titan05 up\n"), Some(vec![]));
    assert_eq!(get_active_nodes(""), None);
    assert_eq!(get_active_nodes("titan[x] up"), None);
}

#[test]
fn mktemp_and_hashes() {
    assert_eq!(mktemp_command(3), "for i in $(seq 1 3); do mktemp; done");
    let (hashes, rm) = get_hash_titan("/tmp/tmp.abc\n/tmp/tmp.xyz\n");
    assert_eq!(hashes, vec!["abc".to_string(), "xyz".to_string()]);
    assert_eq!(rm, "rm /tmp/tmp.abc /tmp/tmp.xyz ");
    let (none, rm2) = get_hash_titan("no temp here");
    assert!(none.is_empty());
    assert_eq!(rm2, "rm no temp here");
}

#[test]
fn ssh_commands() {
    assert_eq!(send_files_command("a.sh", "/x/"), "scp -r a.sh titan:/x/");
    assert_eq!(remote_source("/r/f.tar.gz"), "titan:/r/f.tar.gz");
    assert_eq!(clean_dir_command("/res/0"), "rm -r /res/0/*");
}

#[test]
fn handle_object_names() {
    assert_eq!(HandleObject::parse_titan_obj("JOBS"), Ok(HandleObject::Job));
    assert_eq!(HandleObject::parse_titan_obj("vm"), Ok(HandleObject::VM));
    assert_eq!(HandleObject::parse_titan_obj("Trace"), Ok(HandleObject::Trace));
    assert_eq!(
        HandleObject::parse_titan_obj("foo"),
        Err("foo is not a recognized option, choose: Job|VM|Trace".to_string())
    );
}

#[test]
fn status_names_round_trip() {
    assert_eq!(JobStatus::from_name("DONE"), Ok(JobStatus::DONE));
    assert_eq!(JobStatus::SUBMITTED.as_str(), "SUBMITTED");
    assert!(JobStatus::from_name("done").is_err());
}

#[test]
fn path_joining() {
    assert_eq!(join("a", "b"), "a/b");
    assert_eq!(join("a/", "b"), "a/b");
    assert_eq!(join("a", "/b"), "/b");
    assert_eq!(join("", "b"), "b");
}
