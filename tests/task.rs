use os_kernel::{
    sys_exit, sys_get_time, sys_mmap, sys_task_info, sys_yield, AddressSpace, TaskControlBlock,
    TaskInfo, TaskManager, TaskStatus, TimeVal, MAX_SYSCALL_NUM,
};

fn ready_task() -> TaskControlBlock {
    let mut t = TaskControlBlock::new();
    assert!(t.set_status(TaskStatus::Ready));
    t
}

#[test]
fn syscall_count_out_of_range_is_refused() {
    let mut t = TaskControlBlock::new();
    assert!(!t.increase_syscall_count(MAX_SYSCALL_NUM));
    assert!(!t.increase_syscall_count(usize::MAX));
    assert!(t.syscall_times_list.iter().all(|c| *c == 0));
}

#[test]
fn syscall_count_increments_by_one() {
    let mut t = TaskControlBlock::new();
    for expected in 1..=5u32 {
        assert!(t.increase_syscall_count(0));
        assert_eq!(t.syscall_times_list[0], expected);
    }
    assert!(t.increase_syscall_count(MAX_SYSCALL_NUM - 1));
    assert_eq!(t.syscall_times_list[MAX_SYSCALL_NUM - 1], 1);
    assert_eq!(t.syscall_times_list[1], 0);
}

#[test]
fn syscall_count_saturated_is_refused() {
    let mut t = TaskControlBlock::new();
    t.syscall_times_list[3] = u32::MAX;
    assert!(!t.increase_syscall_count(3));
    assert_eq!(t.syscall_times_list[3], u32::MAX);
}

#[test]
fn start_time_set_only_once() {
    let mut t = TaskControlBlock::new();
    t.set_start_time(100);
    assert!(t.is_started);
    assert_eq!(t.start_time, 100);
    t.set_start_time(250);
    assert_eq!(t.start_time, 100);
    assert_eq!(t.elapsed_ms(300), 200);
    assert_eq!(t.elapsed_ms(50), 0);
}

#[test]
fn status_moves_follow_lifecycle() {
    let mut t = TaskControlBlock::new();
    assert_eq!(t.current_status(), TaskStatus::UnInit);
    assert!(!t.set_status(TaskStatus::Running));
    assert!(t.set_status(TaskStatus::Ready));
    assert!(t.set_status(TaskStatus::Running));
    assert!(t.set_status(TaskStatus::Ready));
    assert!(t.set_status(TaskStatus::Running));
    assert!(t.set_status(TaskStatus::Exited));
    assert!(!t.set_status(TaskStatus::Ready));
    assert_eq!(t.current_status(), TaskStatus::Exited);
}

#[test]
fn manager_runs_tasks_round_robin() {
    let tasks = vec![ready_task(), ready_task(), ready_task()];
    let mut tm = TaskManager::new(tasks).unwrap();
    assert!(tm.run_next_task(10));
    assert_eq!(tm.current, 1);
    assert_eq!(tm.tasks[1].task_status, TaskStatus::Running);
    assert_eq!(tm.tasks[1].start_time, 10);
    assert_eq!(sys_yield(&mut tm, 20), 0);
    assert_eq!(tm.current, 2);
    assert_eq!(tm.tasks[1].task_status, TaskStatus::Ready);
    assert_eq!(sys_yield(&mut tm, 30), 0);
    assert_eq!(tm.current, 0);
    assert_eq!(sys_yield(&mut tm, 40), 0);
    assert_eq!(tm.current, 1);
    assert_eq!(tm.tasks[1].start_time, 10);
}

#[test]
fn yield_with_one_task_runs_it_again() {
    let mut tm = TaskManager::new(vec![ready_task()]).unwrap();
    assert!(tm.run_next_task(5));
    assert_eq!(sys_yield(&mut tm, 6), 0);
    assert_eq!(tm.current, 0);
    assert_eq!(tm.tasks[0].task_status, TaskStatus::Running);
    assert_eq!(tm.tasks[0].start_time, 5);
}

#[test]
fn exit_runs_next_until_none_left() {
    let mut tm = TaskManager::new(vec![ready_task(), ready_task()]).unwrap();
    assert!(tm.run_next_task(0));
    assert_eq!(tm.current, 1);
    assert!(sys_exit(&mut tm, 0, 1));
    assert_eq!(tm.tasks[1].task_status, TaskStatus::Exited);
    assert_eq!(tm.current, 0);
    assert!(!sys_exit(&mut tm, 0, 2));
    assert_eq!(tm.tasks[0].task_status, TaskStatus::Exited);
}

#[test]
fn manager_refuses_empty_or_running_tables() {
    assert!(TaskManager::new(vec![]).is_none());
    let mut t = ready_task();
    assert!(t.set_status(TaskStatus::Running));
    assert!(TaskManager::new(vec![ready_task(), t]).is_none());
    let mut tm = TaskManager::new(vec![TaskControlBlock::new()]).unwrap();
    assert!(!tm.run_next_task(0));
    assert_eq!(tm.find_next_task(), None);
}

#[test]
fn time_val_layout() {
    let t = TimeVal { sec: 0x0102, usec: 7 };
    let b = t.to_bytes();
    assert_eq!(b.len(), 16);
    assert_eq!(&b[0..8], &[2, 1, 0, 0, 0, 0, 0, 0]);
    assert_eq!(&b[8..16], &[7, 0, 0, 0, 0, 0, 0, 0]);
}

#[test]
fn task_info_layout() {
    let mut times = [0u32; MAX_SYSCALL_NUM];
    times[0] = 0x01020304;
    times[MAX_SYSCALL_NUM - 1] = 9;
    let info = TaskInfo { status: TaskStatus::Running, syscall_times: times, time: 0x1234 };
    let b = info.to_bytes();
    assert_eq!(b.len(), 2016);
    assert_eq!(&b[0..4], &[2, 0, 0, 0]);
    assert_eq!(&b[4..8], &[4, 3, 2, 1]);
    assert_eq!(&b[2000..2004], &[9, 0, 0, 0]);
    assert_eq!(&b[2004..2008], &[0, 0, 0, 0]);
    assert_eq!(&b[2008..2016], &[0x34, 0x12, 0, 0, 0, 0, 0, 0]);
}

#[test]
fn get_time_writes_across_pages() {
    let mut s = AddressSpace::new(0x8000_0000);
    assert_eq!(sys_mmap(&mut s, 0x1000, 2 * 4096, 0b011), 0);
    assert_eq!(sys_get_time(&mut s, 0x2000 - 8, 3_500_000), 0);
    let b = s.copy_in(0x2000 - 8, 16).unwrap();
    assert_eq!(b, TimeVal { sec: 3, usec: 500_000 }.to_bytes());
    assert_eq!(sys_get_time(&mut s, 0x3000 - 8, 1), -1);
}

#[test]
fn task_info_reports_counts_and_elapsed_time() {
    let mut s = AddressSpace::new(0x8000_0000);
    assert_eq!(sys_mmap(&mut s, 0x1000, 2 * 4096, 0b011), 0);
    let mut t = ready_task();
    assert!(t.set_status(TaskStatus::Running));
    t.set_start_time(1000);
    assert!(t.increase_syscall_count(169));
    assert!(t.increase_syscall_count(169));
    let ti = 0x1800;
    assert_eq!(sys_task_info(&mut s, ti, &t, 1500), 0);
    let b = s.copy_in(ti, 2016).unwrap();
    assert_eq!(&b[0..4], &[2, 0, 0, 0]);
    assert_eq!(&b[4 + 4 * 169..8 + 4 * 169], &[2, 0, 0, 0]);
    assert_eq!(&b[2008..2016], &[0xf4, 0x01, 0, 0, 0, 0, 0, 0]);
    assert_eq!(sys_task_info(&mut s, 0x2c00, &t, 1500), -1);
}
