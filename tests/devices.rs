use smart_house::decimal::Fixed;
use smart_house::device::{DeviceType, PowerSocket, SmartDevice, Thermometer};
use smart_house::registry::{
    device_get_name, device_get_value, device_off, device_on, device_state, new_device, Registry,
};
use smart_house::transport::MockTransport;

fn read_name(registry: &Registry, id: u64) -> String {
    let mut buffer = [0u8; 32];
    let written = device_get_name(registry, id, &mut buffer);
    let n = written.min(buffer.len() - 1);
    String::from_utf8_lossy(&buffer[..n]).into_owned()
}

fn read_state(registry: &mut Registry, id: u64) -> String {
    let mut buffer = [0u8; 32];
    let written = device_state(registry, id, &mut buffer);
    let n = written.min(buffer.len() - 1);
    String::from_utf8_lossy(&buffer[..n]).into_owned()
}

#[test]
fn test_power_socket_initial_state() {
    let mut socket = PowerSocket::new(MockTransport::new("OFF".to_string()), Fixed::from_int(60));
    assert_eq!(socket.get_name(), "PowerSocket".to_string());
    assert_eq!(socket.get_value(), Fixed::from_int(0));
    assert_eq!(socket.get_state(), "OFF".to_string());
}

#[test]
fn mod_test_power_socket_initial_state() {
    let mut socket = PowerSocket::new(MockTransport::new("OFF".to_string()), Fixed::from_int(60));
    assert_eq!(socket.get_name(), "PowerSocket");
    assert_eq!(socket.get_value(), Fixed::from_int(0));
    assert_eq!(socket.get_state(), "OFF");
}

#[test]
fn test_power_socket_turn_on_off() {
    let mut socket = PowerSocket::new(MockTransport::new("OFF".to_string()), Fixed::from_int(60));
    socket.on();
    assert_eq!(socket.get_state(), "ON".to_string());
    assert_eq!(socket.get_value(), Fixed::from_int(60));

    socket.off();
    assert_eq!(socket.get_state(), "OFF".to_string());
    assert_eq!(socket.get_value(), Fixed::from_int(0));
}

#[test]
fn mod_test_power_socket_turn_on_off() {
    let mut socket = PowerSocket::new(MockTransport::new("ON".to_string()), Fixed::from_int(60));
    socket.on();
    assert_eq!(socket.get_state(), "ON");
    assert_eq!(socket.get_value(), Fixed::from_int(60));

    socket.off();
    assert_eq!(socket.get_state(), "OFF");
    assert_eq!(socket.get_value(), Fixed::from_int(0));
}

#[test]
fn socket_state_is_read_in_upper_case() {
    let mut socket = PowerSocket::new(MockTransport::new("on".to_string()), Fixed::from_int(40));
    assert_eq!(socket.get_state(), "ON");
    assert_eq!(socket.get_value(), Fixed::from_int(40));
}

#[test]
fn mod_test_thermometer_get_value() {
    let mut thermometer = Thermometer::new(Fixed::from_int(0));
    thermometer.apply_sample("25.0");
    assert_eq!(thermometer.get_value(), Fixed::from_int(25));
}

#[test]
fn mod_test_thermometer_off() {
    let mut thermometer = Thermometer::new(Fixed::from_int(0));
    thermometer.apply_sample("25.0");
    thermometer.off();
    assert_eq!(thermometer.get_value(), Fixed::from_int(0));
}

#[test]
fn test_thermometer_off() {
    let mut thermometer = Thermometer::new(Fixed::from_int(0));
    thermometer.off();
    assert_eq!(thermometer.get_value(), Fixed::from_int(0));
}

#[test]
fn thermometer_keeps_reading_on_bad_payload() {
    let mut thermometer = Thermometer::new(Fixed::from_int(0));
    thermometer.apply_sample("25.0");
    assert_eq!(thermometer.get_value(), Fixed::from_int(25));
    thermometer.apply_sample("warm");
    assert_eq!(thermometer.get_value(), Fixed::from_int(25));
    thermometer.apply_sample("0.0");
    assert_eq!(thermometer.get_value(), Fixed::from_int(25));
    thermometer.apply_sample("25.0\n");
    assert_eq!(thermometer.get_value(), Fixed::from_int(25));
    thermometer.apply_sample("-3.5");
    assert_eq!(thermometer.get_value(), Fixed::from_milli(-3500));
}

#[test]
fn thermometer_switch_does_not_lose_reading() {
    let mut thermometer = Thermometer::new(Fixed::from_milli(21500));
    assert_eq!(thermometer.get_state(), "ON");
    thermometer.off();
    assert_eq!(thermometer.get_state(), "OFF");
    thermometer.apply_sample("19.25");
    thermometer.on();
    assert_eq!(thermometer.get_value(), Fixed::from_milli(19250));
}

#[test]
fn test_smart_device_from_thermometer() {
    let thermometer = Thermometer::new(Fixed::from_int(23));
    let mut smart_device = SmartDevice::from(thermometer);
    assert_eq!(smart_device.get_value(), Fixed::from_int(23));
}

#[test]
fn test_smart_device_from_power_socket() {
    let power_socket = PowerSocket::new(MockTransport::new("".to_string()), Fixed::from_int(60));
    let mut smart_device = SmartDevice::from(power_socket);
    assert_eq!(smart_device.get_value(), Fixed::from_int(0));
}

#[test]
fn smart_device_names_and_states() {
    let mut socket = SmartDevice::new(DeviceType::PowerSocket, Fixed::from_int(60));
    let mut sensor = SmartDevice::new(DeviceType::Thermometer, Fixed::from_int(20));
    assert_eq!(socket.get_name(), "PowerSocket");
    assert_eq!(sensor.get_name(), "Thermometer");
    assert_eq!(socket.get_state(), "OFF");
    assert_eq!(sensor.get_state(), "ON");
    sensor.turn_off();
    assert_eq!(sensor.get_state(), "OFF");
    assert_eq!(sensor.get_value(), Fixed::from_int(0));
}

#[test]
fn test_power_socket_creation() {
    let mut registry = Registry::new();
    let device = new_device(&mut registry, DeviceType::PowerSocket, Fixed::from_int(120));
    assert_eq!(read_name(&registry, device), "PowerSocket".to_string());
    assert_eq!(device_get_value(&mut registry, device), Fixed::from_int(0));
    assert_eq!(read_state(&mut registry, device), "OFF".to_string());
}

#[test]
fn test_turn_on_off_power_socket() {
    let mut registry = Registry::new();
    let device = new_device(&mut registry, DeviceType::PowerSocket, Fixed::from_int(120));

    assert!(device_on(&mut registry, device));
    assert_eq!(read_state(&mut registry, device), "ON".to_ascii_uppercase());
    assert_eq!(device_get_value(&mut registry, device), Fixed::from_int(120));

    assert!(device_off(&mut registry, device));
    assert_eq!(read_state(&mut registry, device), "OFF".to_ascii_uppercase());
    assert_eq!(device_get_value(&mut registry, device), Fixed::from_int(0));
}

#[test]
fn smart_device_report_rows() {
    let mut socket = SmartDevice::new(DeviceType::PowerSocket, Fixed::from_int(60));
    assert_eq!(socket.generate_report(), "PowerSocket   OFF                0");
    socket.turn_on();
    assert_eq!(socket.generate_report(), "PowerSocket   ON                60");
    let mut sensor = SmartDevice::new(DeviceType::Thermometer, Fixed::from_milli(-7250));
    assert_eq!(sensor.generate_report(), "Thermometer   ON             -7.25");
}

#[test]
fn ports_are_handed_out_in_turn() {
    let mut base: u16 = 5000;
    assert_eq!(SmartDevice::get_port_then_increment(&mut base), 5000);
    assert_eq!(SmartDevice::get_port_then_increment(&mut base), 5001);
    assert_eq!(base, 5002);
}

#[test]
fn default_devices() {
    let mut socket: PowerSocket<MockTransport> = PowerSocket::default();
    assert_eq!(socket.get_state(), "OFF");
    socket.on();
    assert_eq!(socket.get_value(), Fixed::zero());
    let thermometer = Thermometer::default();
    assert_eq!(thermometer.get_state(), "ON");
    assert_eq!(thermometer.get_value(), Fixed::zero());
}

#[test]
fn test_thermometer_get_value() {
    let mut thermometer = Thermometer::new(Fixed::from_int(0));
    thermometer.apply_sample("25.0");
    assert_eq!(thermometer.get_value(), Fixed::from_int(25));
}
