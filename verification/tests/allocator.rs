use std::collections::HashSet;

use portman::allocator::PortAllocator;
use portman::dependencies::{ChoosePort, RandomChoice};
use portman::error::ApplicationError;

struct LowestPort;

impl ChoosePort for LowestPort {
    fn choose_port(&self, available_ports: &HashSet<u16>) -> Option<u16> {
        available_ports.iter().min().copied()
    }
}

#[test]
fn test_random_chooser() {
    let range = 3000..=3999;
    let mut allocator = PortAllocator::new(range.clone().collect());
    assert!(range.contains(&allocator.allocate(&LowestPort, None).unwrap()));
}

#[test]
fn test_discard() {
    let mut allocator = PortAllocator::new((3000..=3001).collect());
    allocator.discard(3000);
    assert_eq!(allocator.allocate(&LowestPort, None).unwrap(), 3001);
    assert!(matches!(
        allocator.allocate(&LowestPort, None),
        Err(ApplicationError::EmptyAllocator),
    ));
}

#[test]
fn test_allocate() {
    let mut allocator = PortAllocator::new((3000..=3001).collect());
    assert!(allocator.allocate(&LowestPort, None).is_ok());
    assert!(allocator.allocate(&LowestPort, None).is_ok());
    assert!(matches!(
        allocator.allocate(&LowestPort, None),
        Err(ApplicationError::EmptyAllocator),
    ));
}

#[test]
fn test_desired_port() {
    let mut allocator = PortAllocator::new((3000..=3002).collect());
    assert_eq!(allocator.allocate(&LowestPort, Some(3001)).unwrap(), 3001);
    assert_eq!(allocator.allocate(&LowestPort, Some(4000)).unwrap(), 3000);
    assert_eq!(allocator.allocate(&LowestPort, None).unwrap(), 3002);
    assert!(matches!(
        allocator.allocate(&LowestPort, None),
        Err(ApplicationError::EmptyAllocator),
    ));
}

#[test]
fn random_choice_draws_from_the_pool() {
    let mut allocator = PortAllocator::new(vec![4100, 4200, 4300]);
    let mut seen = Vec::new();
    for _ in 0..3 {
        let port = allocator.allocate(&RandomChoice, None).unwrap();
        assert!([4100, 4200, 4300].contains(&port));
        assert!(!seen.contains(&port));
        seen.push(port);
    }
    assert!(matches!(
        allocator.allocate(&RandomChoice, None),
        Err(ApplicationError::EmptyAllocator),
    ));
}

#[test]
fn choice_outside_the_pool_is_refused() {
    let mut allocator = PortAllocator::new(vec![5000]);
    assert!(matches!(allocator.accept(Some(6000)), Err(ApplicationError::EmptyAllocator)));
    assert!(allocator.is_available(5000));
    assert_eq!(allocator.accept(Some(5000)).unwrap(), 5000);
    assert!(!allocator.is_available(5000));
    assert!(matches!(allocator.accept(None), Err(ApplicationError::EmptyAllocator)));
}
