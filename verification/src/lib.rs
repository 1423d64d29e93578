//! A monitor of a host's resources: the processor's busy share, the free share of
//! memory, and the shares of each process, from the texts of the kernel's accounting
//! files.
//!
//! The library takes the texts and gives the numbers. It reads no file: whoever drives
//! it reads the files and hands their texts over, one sample at a time.

pub mod accounting;
pub mod cpu;
pub mod error;
pub mod mem;
pub mod merge;
pub mod number;
pub mod order;
pub mod percent;
pub mod process;
pub mod records;
pub mod series;
pub mod table;
pub mod text;
pub mod walker;

pub use accounting::{AccountingFile, FileKind};
pub use cpu::{create_cpu_vector, CPUUsage};
pub use error::Error;
pub use mem::{extract_kb_info, get_total_mem_info, MemInfo};
pub use percent::Percent;
pub use process::Process;
pub use table::ProcessInfo;
pub use text::get_line_from_file;
pub use walker::{classify_entry, EntryAction};
