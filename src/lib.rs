//! Process and memory core of a small teaching kernel: page-table backed
//! address spaces with `mmap`/`munmap`/`sbrk`, copying values out to user
//! memory across page boundaries, and task control blocks with their
//! scheduler bookkeeping.
pub mod config;
pub mod copyout;
pub mod mm;
pub mod process;
pub mod task;

pub use config::{page_count, MAX_SYSCALL_NUM, MEMORY_FRAMES, PAGE_SIZE};
pub use copyout::{read_u8_slice, write_u8_slice};
pub use mm::{AddressSpace, MapPermission, PageTableEntry};
pub use process::{
    sys_exit, sys_get_time, sys_mmap, sys_munmap, sys_sbrk, sys_task_info, sys_yield, TaskInfo,
    TimeVal,
};
pub use task::{TaskContext, TaskControlBlock, TaskManager, TaskStatus};
