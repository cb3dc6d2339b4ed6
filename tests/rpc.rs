use blocknode::method::{DumpPrivKey, Method};
use blocknode::rpc::Server;
use blocknode::task::Task;

#[test]
fn method_name() {
    assert_eq!(DumpPrivKey.name(), "dumpprivkey");
}

#[test]
fn add_method_keeps_one_per_name() {
    let mut server: Server<DumpPrivKey> = Server::new();
    server.run();
    assert_eq!(server.methods.len(), 0);
    server.add_method(DumpPrivKey);
    assert_eq!(server.methods.len(), 1);
    server.add_method(DumpPrivKey);
    assert_eq!(server.methods.len(), 1);
    assert_eq!(server.methods[0].name(), "dumpprivkey");
}

#[test]
fn tasks_are_distinct() {
    assert_ne!(Task::DumpPrivKey, Task::GetNetworkInfo);
    assert_ne!(Task::GetNetworkInfo, Task::GetPeerInfo);
    assert_eq!(Task::GetPeerInfo, Task::GetPeerInfo);
}
