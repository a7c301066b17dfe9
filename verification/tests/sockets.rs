use deepsize::capability::DeepSizeOf;
use deepsize::context::Context;
use deepsize::model::Heap;

#[test]
fn sockets_own_nothing() {
    let runtime = tokio::runtime::Builder::new_current_thread().enable_io().build().unwrap();
    let _guard = runtime.enter();
    let heap = Heap { allocs: Vec::new() };
    let mut context = Context::new();
    let datagram = tokio::net::UnixDatagram::unbound().unwrap();
    assert_eq!(datagram.deep_size_of_children(&heap, &mut context), 0);
    let (left, right) = tokio::net::UnixStream::pair().unwrap();
    assert_eq!(left.deep_size_of_children(&heap, &mut context), 0);
    assert_eq!(right.deep_size_of_children(&heap, &mut context), 0);
    assert_eq!(context.len(), 0);
}
