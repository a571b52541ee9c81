//! PCI device classification.
pub mod sub_class;
pub mod device_type;

pub use device_type::{
    AtaControllerDmaMode, BridgeType, ClassCode, CpuFacingBus, DeviceType, DisplayControllerType,
    IdeControllerMode, MassStorageControllerType, MemoryControllerType, MultimediaControllerType,
    NetworkControllerType, NvmControllerInterface, PciBridgeDecodeMode, RaceWayBridgeMode,
    SasControllerInterface, SataControllerInterface, VgaCompatibleControllerType,
};
