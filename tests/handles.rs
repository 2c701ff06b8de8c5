use uniffi_core_model::handles::{HandleError, HandleRegistry};

#[test]
fn handle_lifecycle() {
    let mut reg: HandleRegistry<String> = HandleRegistry::new();
    let h = reg.register("obj".to_string());
    assert_eq!(reg.resolve(h), Ok(&"obj".to_string()));
    assert_eq!(reg.release(h), Ok("obj".to_string()));
    assert_eq!(reg.resolve(h), Err(HandleError::StaleHandle));
    assert_eq!(reg.release(h), Err(HandleError::DoubleRelease));
}

#[test]
fn handles_are_fresh_and_unknown_ones_stale() {
    let mut reg: HandleRegistry<u32> = HandleRegistry::new();
    assert_eq!(reg.resolve(0), Err(HandleError::StaleHandle));
    assert_eq!(reg.resolve(1), Err(HandleError::StaleHandle));
    assert_eq!(reg.release(1), Err(HandleError::StaleHandle));
    let a = reg.register(10);
    let b = reg.register(20);
    assert!(b > a);
    assert_eq!(reg.release(a), Ok(10));
    let c = reg.register(30);
    assert!(c > b);
    assert_eq!(reg.resolve(b), Ok(&20));
    assert_eq!(reg.resolve(c), Ok(&30));
    assert_eq!(reg.issued_count(), 3);
}
