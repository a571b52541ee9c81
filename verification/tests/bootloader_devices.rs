use osbase::bootloader::ahci::{
    AhciController, CommandList, CommandTable, DeviceProperties, FisReceiveArea, FisType, GlobalHbaControl,
    HostCapabilities, ImplementedPorts, InterfaceSpeed, PortCmd, PortRegisters, Prdt, SataError, SataStatus,
    TaskFileData, DeviceDetection, IpmState, register_fis_for,
};
use osbase::bootloader::pci::{DeviceType, MassStorageControllerType, NetworkControllerType, SataControllerInterface};

fn ahci_type() -> Result<DeviceType, (u8, u8, u8)> {
    DeviceType::try_from(0x01, 0x06, 0x01)
}

#[test]
fn pci_classification() {
    assert_eq!(
        ahci_type(),
        Ok(DeviceType::MassStorageController(MassStorageControllerType::SataController {
            interface: SataControllerInterface::Ahci
        }))
    );
    assert_eq!(
        DeviceType::try_from(0x02, 0x00, 0x00),
        Ok(DeviceType::NetworkController(NetworkControllerType::EthernetController))
    );
    assert_eq!(DeviceType::try_from(0x00, 0x01, 0x00), Ok(DeviceType::Unclassified { vga_compatible: true }));
    assert_eq!(DeviceType::try_from(0xFF, 0x42, 0x07), Ok(DeviceType::UnassignedClass));
    assert_eq!(DeviceType::try_from(0x01, 0x06, 0x05), Err((0x01, 0x06, 0x05)));
    assert_eq!(DeviceType::try_from(0x30, 0x00, 0x00), Err((0x30, 0x00, 0x00)));
}

#[test]
fn host_capabilities_fields() {
    // 64-bit, AHCI only, speed Gen3, 31 command slots field, 5 ports field.
    let caps = HostCapabilities(0x8000_0000 | 0x0004_0000 | (3 << 20) | (0x1F << 8) | 0x05);
    assert!(caps.s64a());
    assert!(caps.sam());
    assert!(!caps.fbss());
    assert!(!caps.sncq());
    assert_eq!(caps.iss(), Some(InterfaceSpeed::Gen3));
    assert_eq!(caps.ncs(), 31);
    assert_eq!(caps.command_slot_count(), 32);
    assert_eq!(caps.np(), 5);
    assert_eq!(caps.port_count(), 6);
    assert_eq!(HostCapabilities(7 << 20).iss(), None);
}

#[test]
fn interface_speed_decoding() {
    assert_eq!(InterfaceSpeed::try_from(1), Ok(InterfaceSpeed::Gen1));
    assert_eq!(InterfaceSpeed::try_from(2), Ok(InterfaceSpeed::Gen2));
    assert_eq!(InterfaceSpeed::try_from(0), Err(0));
}

#[test]
fn implemented_ports() {
    let pi = ImplementedPorts(0b1010);
    assert!(!pi.is_port_implemented(0));
    assert!(pi.is_port_implemented(1));
    assert!(pi.is_port_implemented(3));
    assert!(!pi.is_port_implemented(31));
}

#[test]
fn ghc_enable_ahci_mode() {
    let mut ghc = GlobalHbaControl::new(0x1004, 0x2);
    assert!(!ghc.ae());
    ghc.enable_ahci_mode();
    assert!(ghc.written());
    assert_eq!(ghc.read(), 0x8000_0000);
    assert!(ghc.ae());
    let mut on = GlobalHbaControl::new(0x1004, 0x8000_0002);
    on.enable_ahci_mode();
    assert!(!on.written());
    assert_eq!(on.read(), 0x8000_0002);
    on.disable_ahci_mode();
    assert!(on.written());
    assert_eq!(on.read(), 0);
}

#[test]
fn ghc_interrupts_and_reset() {
    let mut ghc = GlobalHbaControl::new(0x1004, 0x8000_0000);
    ghc.enable_interrupts();
    assert!(ghc.ie());
    assert_eq!(ghc.read(), 0x8000_0002);
    ghc.reset();
    assert!(ghc.hr());
    assert!(!ghc.mrsm());
    ghc.disable_interrupts();
    assert!(!ghc.ie());
    assert_eq!(ghc.read(), 0x8000_0001);
    assert_eq!(ghc.address(), 0x1004);
}

#[test]
fn port_cmd_bits() {
    let mut cmd = PortCmd::new(0x1118, 0x4000);
    assert!(cmd.fr());
    assert!(!cmd.st());
    cmd.enable_fre();
    cmd.start();
    assert!(cmd.st());
    assert!(cmd.fre());
    assert_eq!(cmd.read(), 0x4011);
    cmd.stop();
    cmd.disable_fre();
    assert_eq!(cmd.read(), 0x4000);
    cmd.enable_fre();
    cmd.disable_fis_receive();
    assert!(!cmd.fre());
    assert!(cmd.written());
}

#[test]
fn task_file_and_error_registers() {
    let tfd = TaskFileData(0x0000_0489);
    assert_eq!(tfd.error(), Some(0x89));
    assert!(tfd.busy());
    assert!(tfd.transfer_requested());
    assert!(tfd.transfer_error());
    assert_eq!(TaskFileData(0x100).error(), None);
    let serr = SataError((1 << 26) | (1 << 11) | 1);
    assert!(serr.exchanged());
    assert!(serr.internal_error());
    assert!(serr.recovered_data_integrity_error());
    assert!(!serr.crc_error());
}

#[test]
fn sata_status_decoding() {
    let st = SataStatus::try_from(0x123).unwrap();
    assert_eq!(st.ipm, Some(IpmState::Active));
    assert_eq!(st.spd, Some(InterfaceSpeed::Gen2));
    assert_eq!(st.det, DeviceDetection::PhyCommunicationEstablished);
    let none = SataStatus::try_from(0).unwrap();
    assert_eq!(none.ipm, None);
    assert_eq!(none.det, DeviceDetection::NoDeviceDetected);
    assert_eq!(SataStatus::try_from(0x323).err(), Some(0x323));
    assert_eq!(SataStatus::try_from(0x153).err(), Some(0x153));
    assert_eq!(SataStatus::try_from(0x122).err(), Some(0x122));
}

#[test]
fn read_fis_layout() {
    assert_eq!(FisType::RegisterH2D.value(), 0x27);
    assert_eq!(FisType::DeviceBits.value(), 0xA1);
    let fis = register_fis_for(0x25, 0x0605_0403_0201, 0x0A0B);
    assert_eq!(&fis[0..14], &[0x27, 0x80, 0x25, 0, 0x01, 0x02, 0x03, 0x40, 0x04, 0x05, 0x06, 0, 0x0B, 0x0A]);
    assert!(fis[14..].iter().all(|b| *b == 0));
}

#[test]
fn prdt_and_tables() {
    let p = Prdt::new(0x1_2345_6780, 511);
    assert_eq!(p.dba, 0x2345_6780);
    assert_eq!(p.dbau, 1);
    assert_eq!(p.dw3, 511);
    let table = CommandTable::new([1u8; 64], [2u8; 16], &[p]);
    assert_eq!(table.cfis, [1u8; 64]);
    assert_eq!(table.prdts.len(), 1);
    assert!(table.reserved.iter().all(|b| *b == 0));
    let list = CommandList::new();
    assert_eq!(list.get(31).flags, 0);
    assert!(FisReceiveArea::new().0.iter().all(|b| *b == 0));
}

#[test]
fn identify_data_sector_count() {
    let mut data = vec![0u8; 512];
    data[120..124].copy_from_slice(&1000u32.to_le_bytes());
    data[200..208].copy_from_slice(&123_456_789u64.to_le_bytes());
    // The 48-bit count is taken whatever the feature word says.
    let props = DeviceProperties::from_identify_data(&data);
    assert_eq!(props.sector_count(), 123_456_789);
}

#[test]
fn controller_checks() {
    let caps = HostCapabilities(0x8000_0000 | 3);
    let not_ahci = DeviceType::try_from(0x01, 0x06, 0x00);
    assert_eq!(AhciController::try_from(not_ahci, 0xFEB0_0000, caps).err(), Some("incorrect pci device type"));
    assert_eq!(AhciController::try_from(ahci_type(), 0, caps).err(), Some("abar is null"));
    let fbss = HostCapabilities(1 << 16);
    assert_eq!(
        AhciController::try_from(ahci_type(), 0xFEB0_0000, fbss).err(),
        Some("invalid device configuration: CAP.FBSS == true")
    );
}

#[test]
fn controller_ports() {
    let caps = HostCapabilities(0x8000_0000 | 3);
    let mut controller = AhciController::try_from(ahci_type(), 0xFEB0_0000, caps).unwrap();
    assert!(controller.get_port(1).is_none());
    controller.init(caps, ImplementedPorts(0b1_0010));
    assert!(controller.get_port(0).is_none());
    assert!(controller.get_port(4).is_none());
    assert!(controller.get_port(40).is_none());
    let port = controller.get_port(1).unwrap();
    assert_eq!(port.base(), 0xFEB0_0000 + 0x100 + 0x80);
    assert!(port.s64a());
    assert_eq!(port.clb_words(0x1_0000_0400), (0x400, Some(1)));
    assert_eq!(port.fb_words(0x2000), (0x2000, Some(0)));
    let (low, high) = port.clb_words(0x3_4567_8C00);
    assert_eq!(((high.unwrap() as u64) << 32) | low as u64, 0x3_4567_8C00);
    port.read(0x10_0000, 1024, 0x1234, 2, 0x20_0000).unwrap();
    let table = port.command_table();
    assert_eq!(table.cfis[2], 0x25);
    assert_eq!(table.cfis[4], 0x34);
    assert_eq!(table.cfis[12], 2);
    assert_eq!(table.prdts.len(), 1);
    assert_eq!(table.prdts[0].dw3, 1023);
    let header = port.command_list().get(0);
    assert_eq!(header.flags, 5);
    assert_eq!(header.prdtl, 1);
    let ctba = header.ctba;
    assert_eq!(ctba, 0x20_0000);
    port.identify_command(0x30_0000, 0x20_0000);
    assert_eq!(port.command_table().cfis[2], 0xEC);
    assert_eq!(port.command_table().prdts[0].dw3, 511);
}

#[test]
fn register_blocks() {
    let caps = HostCapabilities(0);
    let mut controller = AhciController::try_from(ahci_type(), 0x1000, caps).unwrap();
    let mut ghc = controller.generic_host_control();
    assert_eq!(ghc.base(), 0x1000);
    assert_eq!(ghc.ports_implemented_address(), 0x100C);
    let hba = ghc.global_hba_control(0);
    assert_eq!(hba.address(), 0x1004);
    let mut regs = PortRegisters::new(&controller, 2);
    assert_eq!(regs.base(), 0x1200);
    let cmd = regs.cmd(0x11);
    assert_eq!(cmd.address(), 0x1218);
    assert!(cmd.st());
}
