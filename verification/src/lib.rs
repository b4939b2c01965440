//! Pure kernel logic: register encodings, divisor arithmetic, allocator and
//! capability bookkeeping, wire formats — each a total function over integers
//! and byte sequences, with its behaviour stated as a contract.
#![allow(unused_imports)]

pub mod a64;
pub mod budget;
pub mod delay;
pub mod preempt;
pub mod paging;
pub mod runqueue;
pub mod tasks;
pub mod density;
pub mod display;
pub mod lifecycle;
pub mod cpuid;
pub mod gic;
pub mod reset;
pub mod rng;
pub mod spi;
pub mod sdcard;
pub mod sdhci;
pub mod syscall;
pub mod cap;
pub mod asid;
pub mod bump;
mod wire;
pub mod irqtable;
pub mod parktime;
pub mod storage;
pub mod rxline;
pub mod reply;
pub mod ipc;
pub mod net;
pub mod capslots;
pub mod frame;
pub mod blob;
pub mod durable;
pub mod durable_media;
pub mod mbr;
pub mod manifest;
pub mod loaderplan;
pub mod agentstore;
pub mod prog;
pub mod layout;
pub mod fault;
pub mod held;
pub mod naming;
pub mod irqcap;
pub mod irqwait;
pub mod fdt;
pub mod hwdesc;
mod text;
pub mod genet;
pub mod genet_fdt;
pub mod poll;
pub mod ring;
pub mod heap;
