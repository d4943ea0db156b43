use mini_llm::memory::{DoubleBuffer, MemoryError, ScratchArena};

#[test]
fn test_scratch_arena_allocation_and_reset() {
    let mut arena = ScratchArena::new(100);
    assert_eq!(arena.capacity(), 100);
    assert_eq!(arena.current_usage(), 0);

    let t1 = arena.allocate(&[10, 5]).unwrap();
    assert_eq!(t1.shape.dims(), &[10, 5]);
    assert_eq!(t1.offset, 0);
    assert_eq!(arena.current_usage(), 50);

    let t2 = arena.allocate(&[5, 5]).unwrap();
    assert_eq!(t2.shape.dims(), &[5, 5]);
    assert_eq!(t2.offset, 50);
    assert_eq!(arena.current_usage(), 75);

    // Exceed capacity
    let err = arena.allocate(&[30]);
    assert!(err.is_err());

    // Reset arena
    arena.reset();
    assert_eq!(arena.current_usage(), 0);

    // Reuse without new allocations
    let t3 = arena.allocate(&[50]).unwrap();
    assert_eq!(t3.offset, 0);
    assert_eq!(arena.current_usage(), 50);
}

#[test]
fn test_double_buffering() {
    let mut db = DoubleBuffer::new(vec![0.0f32; 8], vec![0.0f32; 8]);

    {
        let (_in_buf, out_buf) = db.step();
        out_buf[0] = 123.0;
    }
    assert_eq!(db.current()[0], 123.0);

    {
        let (_in_buf, out_buf) = db.step();
        out_buf[0] = 456.0;
    }
    assert_eq!(db.current()[0], 456.0);
}

#[test]
fn test_arena_out_of_memory_reports_sizes() {
    let mut arena = ScratchArena::new(40);
    arena.allocate(&[3, 10]).unwrap();
    match arena.allocate(&[2, 6]) {
        Err(MemoryError::OutOfMemory { requested_elements, available_elements }) => {
            assert_eq!(requested_elements, 12);
            assert_eq!(available_elements, 10);
        }
        _ => panic!("expected OutOfMemory"),
    }
    assert_eq!(arena.current_usage(), 30);
}

#[test]
fn test_arena_peak_and_strides() {
    let mut arena = ScratchArena::new(64);
    let slot = arena.allocate(&[2, 3, 4]).unwrap();
    assert_eq!(slot.strides, vec![12, 4, 1]);
    assert_eq!(arena.peak_usage(), 24);
    arena.reset();
    arena.allocate(&[5]).unwrap();
    assert_eq!(arena.current_usage(), 5);
    assert_eq!(arena.peak_usage(), 24);
    arena.allocate(&[30]).unwrap();
    assert_eq!(arena.peak_usage(), 35);
}

#[test]
fn test_double_buffer_reads_previous_result() {
    let mut db = DoubleBuffer::new(1u32, 2u32);
    assert_eq!(*db.current(), 1);
    {
        let (input, output) = db.step();
        *output = *input + 10;
    }
    assert_eq!(*db.current(), 11);
    {
        let (input, output) = db.step();
        assert_eq!(*input, 11);
        *output = *input * 2;
    }
    assert_eq!(*db.current(), 22);
}

#[test]
fn test_memory_error_message() {
    let e = MemoryError::OutOfMemory { requested_elements: 12, available_elements: 10 };
    assert_eq!(e.message(), "ScratchArena OOM: requested 12 elements, but only 10 remain");
    let t = MemoryError::from(mini_llm::tensor::TensorError::NonContiguousError);
    assert_eq!(
        t.message(),
        "Tensor error in memory pool: Operation requires contiguous tensor in memory; call .contiguous() first"
    );
}
