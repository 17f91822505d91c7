use gartop::gpu::GpuCollector;
use gartop::temperature::TempCollector;

#[test]
fn gpu_file_values() {
    assert_eq!(GpuCollector::read_file_u64(Some(" 42\n")), Some(42));
    assert_eq!(GpuCollector::read_file_u64(Some("+7")), Some(7));
    assert_eq!(GpuCollector::read_file_u64(Some("-7")), None);
    assert_eq!(GpuCollector::read_file_u64(Some("18446744073709551616")), None);
    assert_eq!(GpuCollector::read_file_u64(Some("18446744073709551615")), Some(u64::MAX));
    assert_eq!(GpuCollector::read_file_u64(None), None);
    assert_eq!(GpuCollector::read_file_i64(Some("-45000\n")), Some(-45000));
    assert_eq!(GpuCollector::read_file_i64(Some("-9223372036854775808")), Some(i64::MIN));
    assert_eq!(GpuCollector::read_file_i64(Some("9223372036854775808")), None);
    assert_eq!(GpuCollector::read_file_i64(Some("")), None);
    assert_eq!(GpuCollector::read_file_i64(Some("-")), None);
    assert!(GpuCollector::new().is_ok());
}

#[test]
fn gpu_model_sources() {
    assert_eq!(GpuCollector::read_gpu_model(Some("PCI_ID=1\nDRIVER=amdgpu\n"), Some("X"), None, None), "amdgpu");
    assert_eq!(GpuCollector::read_gpu_model(Some("PCI_ID=1\n"), Some(" Radeon \n"), None, None), "Radeon");
    assert_eq!(GpuCollector::read_gpu_model(None, None, Some("0x1002\n"), Some("0x73bf\n")), "0x1002 0x73bf");
    assert_eq!(GpuCollector::read_gpu_model(None, None, Some("0x1002\n"), None), "Unknown GPU");
}

#[test]
fn gpu_clock_temp_power() {
    let freqs = vec![Some("1500000000\n".to_string()), Some("1".to_string())];
    assert_eq!(GpuCollector::find_gpu_clock(&freqs, None), Some(1500));
    let none_first = vec![None, Some("2000000000".to_string())];
    assert_eq!(GpuCollector::find_gpu_clock(&none_first, None), Some(2000));
    let sclk = "0: 500Mhz\n1: 1200Mhz *\n2: 1800Mhz\n";
    assert_eq!(GpuCollector::find_gpu_clock(&none_first, Some(sclk)), Some(1200));
    assert_eq!(GpuCollector::find_gpu_clock(&vec![], Some(sclk)), None);
    assert_eq!(GpuCollector::find_gpu_clock(&vec![None], Some("0: 300MHz *\n")), Some(300));
    assert_eq!(GpuCollector::find_gpu_temp(&vec![None, Some("55000\n".to_string())]), Some(55000));
    assert_eq!(GpuCollector::find_gpu_power(&vec![Some("x".to_string())]), None);
    assert_eq!(GpuCollector::find_gpu_power(&vec![Some("12000000".to_string())]), Some(12_000_000));
    assert!(GpuCollector::is_card("card0"));
    assert!(!GpuCollector::is_card("card0-DP-1"));
    assert!(!GpuCollector::is_card("renderD128"));
}

#[test]
fn temperature_sensors() {
    assert_eq!(TempCollector::sensor_index("temp1_input").as_deref(), Some("1"));
    assert_eq!(TempCollector::sensor_index("temp12_input").as_deref(), Some("12"));
    assert_eq!(TempCollector::sensor_index("temp_input").as_deref(), Some(""));
    assert_eq!(TempCollector::sensor_index("temp1_label"), None);
    assert_eq!(TempCollector::sensor_index("fan1_input"), None);
    let s = TempCollector::read_sensor("1", "k10temp\n", Some("45500\n"), None, Some("100000"), Some("bad")).unwrap();
    assert_eq!(s.label, "temp1");
    assert_eq!(s.device, "k10temp\n");
    assert_eq!(s.temp_millidegrees, 45500);
    assert_eq!(s.critical_millidegrees, Some(100000));
    assert_eq!(s.high_millidegrees, None);
    let l = TempCollector::read_sensor("2", "x", Some("1"), Some(" Tctl \n"), None, None).unwrap();
    assert_eq!(l.label, "Tctl");
    assert!(TempCollector::read_sensor("3", "x", Some("n/a"), None, None, None).is_none());
    assert!(TempCollector::new().is_ok());
}
