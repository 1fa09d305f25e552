pub mod assembler;
pub mod decoder;
pub mod devices;
pub mod elf;
pub mod machine;
pub mod memory;
pub mod random;
pub mod risclib;
pub mod riscutils;
pub mod text;

pub use assembler::assemble;

pub use risclib::Trap;

pub use machine::Core;
pub use machine::IALIGN;
pub use machine::RESET_VECTOR;

pub use devices::Bus;
pub use devices::{Device, DeviceOption};
pub use devices::{HEIGHT, WIDTH};
pub use devices::VGATextBuffer;
pub use memory::DataEnsuredMemory;
pub use memory::StandardAccess;
pub use memory::StdMemory;
