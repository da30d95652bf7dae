use oskernel::task::priority::{Priority, PriorityImpl, DEFAULT_PRIORITY};
use oskernel::task::stride::{BigStride, Stride, StrideImpl};

struct Task {
    id: usize,
    priority: u8,
    stride: StrideImpl<u8>,
    real_stride: u64,
}

impl Task {
    fn new(id: usize, priority: u8) -> Self {
        Self { id, priority, stride: StrideImpl::default(), real_stride: 0 }
    }
}

#[test]
fn test_stride() {
    assert!(!(StrideImpl::<u8>::new(125) < StrideImpl::<u8>::new(255)));
    assert!(StrideImpl::<u8>::new(129) < StrideImpl::<u8>::new(255));
    assert!(StrideImpl::<u8>::new(0) < StrideImpl::<u8>::new(127));

    let mut tasks: Vec<Task> = (0..=8u8).map(|i| Task::new(i as usize, 2 + i)).collect();
    let mut steps: u64 = 0;

    while tasks.iter().map(|t| t.real_stride).max().unwrap() < u64::from(u32::MAX) / 16 {
        let mut id = 0;
        for t in tasks.iter() {
            let best = &tasks[id];
            if t.stride < best.stride || (t.stride == best.stride && t.id < best.id) {
                id = t.id;
            }
        }
        let id_expect = tasks.iter().min_by_key(|t| (t.real_stride, t.id)).map(|t| t.id).unwrap();
        assert_eq!(id, id_expect);

        let task = &mut tasks[id];
        task.stride.step(PriorityImpl::<u8>::try_from(task.priority as isize).unwrap());
        task.real_stride += (u8::BIG_STRIDE / task.priority) as u64;
        steps += 1;
    }
    assert!(steps >= 1 << 20);
}

#[test]
fn wrapped_comparison_is_by_distance() {
    let a = StrideImpl::<u8>::new(250);
    let b = StrideImpl::<u8>::new(3);
    assert!(a < b);
    assert!(b > a);
    assert!(!(b < a));
    assert!(a <= a);
    assert_eq!(a.partial_cmp(&a), Some(core::cmp::Ordering::Equal));
    assert_eq!(a.partial_cmp(&b), Some(core::cmp::Ordering::Less));
    assert_eq!(b.partial_cmp(&a), Some(core::cmp::Ordering::Greater));
    let far = StrideImpl::<u8>::new(250 - 128);
    assert!(a < far);
}

#[test]
fn step_wraps_around() {
    let mut s = StrideImpl::<u8>::new(250);
    s.step(PriorityImpl::new(4u8));
    assert_eq!(*s.get(), 57);
    let mut t = StrideImpl::<u8>::new(0);
    t.step(PriorityImpl::new(2u8));
    assert_eq!(*t.get(), 127);
    let mut u = StrideImpl::<u32>::new(u32::MAX);
    u.step(PriorityImpl::new(2u32));
    assert_eq!(*u.get(), u32::MAX / 100 / 2 - 1);
    let mut k = Stride::new(usize::MAX - 1);
    k.step(Priority::new(16));
    assert_eq!(*k.get(), (isize::MAX as usize) / 16 - 2);
}

#[test]
fn big_stride_constants() {
    assert_eq!(<u8 as BigStride<u8>>::BIG_STRIDE, 255);
    assert_eq!(<u8 as BigStride<u8>>::BIG_STRIDE_DIV_2, 127);
    assert_eq!(<u32 as BigStride<u32>>::BIG_STRIDE, u32::MAX / 100);
    assert_eq!(<u32 as BigStride<u32>>::BIG_STRIDE_DIV_2, u32::MAX / 200);
    assert_eq!(<usize as BigStride<usize>>::BIG_STRIDE, isize::MAX as usize);
    assert_eq!(<usize as BigStride<usize>>::BIG_STRIDE_DIV_2, isize::MAX as usize / 2);
}

#[test]
fn priority_range() {
    assert_eq!(Priority::try_from(2), Ok(PriorityImpl(2u32)));
    assert_eq!(Priority::try_from(16), Ok(PriorityImpl(16u32)));
    assert_eq!(Priority::try_from(1), Err(()));
    assert_eq!(Priority::try_from(0), Err(()));
    assert_eq!(Priority::try_from(-1), Err(()));
    assert_eq!(Priority::try_from(isize::MIN), Err(()));
    assert_eq!(Priority::try_from(u32::MAX as isize), Ok(PriorityImpl(u32::MAX)));
    assert_eq!(Priority::try_from(u32::MAX as isize + 1), Err(()));
    assert_eq!(PriorityImpl::<u8>::try_from(255), Ok(PriorityImpl(255u8)));
    assert_eq!(PriorityImpl::<u8>::try_from(256), Err(()));
    assert_eq!(PriorityImpl::<usize>::try_from(isize::MAX), Ok(PriorityImpl(isize::MAX as usize)));
    assert_eq!(Priority::default().0 as isize, DEFAULT_PRIORITY);
    assert_eq!(PriorityImpl::<u8>::default().0, 16);
    assert_eq!(PriorityImpl::new(7u32).0, 7);
}
