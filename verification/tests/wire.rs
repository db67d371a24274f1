use sh1107g::builder::Sh1107gBuilder;
use sh1107g::bus::I2cBus;
use sh1107g::error::BuilderError;
use sh1107g::error::Sh1107gError;
use sh1107g::session::init_frame_list;
use sh1107g::Sh1107g;
use sh1107g::DISPLAY_WIDTH;
use sh1107g::I2C_MAX_WRITE;
use sh1107g::PAGE_COUNT;

struct MockBus {
    writes: Vec<(u8, Vec<u8>)>,
    fail_on: Option<usize>,
}

impl MockBus {
    fn new() -> Self {
        MockBus { writes: Vec::new(), fail_on: None }
    }

    fn failing_on(n: usize) -> Self {
        MockBus { writes: Vec::new(), fail_on: Some(n) }
    }
}

impl I2cBus for MockBus {
    type BusError = u8;

    fn bus_write(&mut self, address: u8, bytes: &[u8]) -> Result<(), u8> {
        self.writes.push((address, bytes.to_vec()));
        if self.fail_on == Some(self.writes.len()) {
            Err(0xEE)
        } else {
            Ok(())
        }
    }
}

fn expected_init_frames() -> Vec<Vec<u8>> {
    vec![
        vec![0x00, 0xAE],
        vec![0x00, 0xD5, 0x51],
        vec![0x00, 0xA8, 0x7F],
        vec![0x00, 0xD3, 0x60],
        vec![0x00, 0xDC, 0x00],
        vec![0x00, 0xAD, 0x8B],
        vec![0x00, 0xA1],
        vec![0x00, 0xC8],
        vec![0x00, 0xDA, 0x12],
        vec![0x00, 0x81, 0x2F],
        vec![0x00, 0xD9, 0x22],
        vec![0x00, 0xDB, 0x35],
        vec![0x00, 0xA4],
        vec![0x00, 0xA6],
        vec![0x00, 0xAF],
    ]
}

#[test]
fn send_cmd_prepends_command_control_byte() {
    let mut d = Sh1107g::new(MockBus::new(), 0x3C);
    d.send_cmd(&[0x81, 0x2F]).unwrap();
    assert_eq!(d.i2c.writes, vec![(0x3C, vec![0x00, 0x81, 0x2F])]);
}

#[test]
fn send_cmd_accepts_a_full_frame() {
    let mut d = Sh1107g::new(MockBus::new(), 0x3C);
    let cmd = [0xA5; 31];
    d.send_cmd(&cmd).unwrap();
    assert_eq!(d.i2c.writes.len(), 1);
    assert_eq!(d.i2c.writes[0].1.len(), I2C_MAX_WRITE);
}

#[test]
fn send_cmd_refuses_an_oversized_payload() {
    let mut d = Sh1107g::new(MockBus::new(), 0x3C);
    let cmd = [0xA5; 32];
    let r = d.send_cmd(&cmd);
    assert!(matches!(r, Err(Sh1107gError::PayloadOverflow)));
    assert!(d.i2c.writes.is_empty());
}

#[test]
fn send_data_chunks_into_frames() {
    let mut d = Sh1107g::new(MockBus::new(), 0x3C);
    let data: Vec<u8> = (0..128).map(|i| i as u8).collect();
    d.send_data(&data).unwrap();
    // A 128-byte page over a 32-byte transport: 31 + 31 + 31 + 31 + 4.
    assert_eq!(d.i2c.writes.len(), 5);
    let mut joined: Vec<u8> = Vec::new();
    for (addr, frame) in &d.i2c.writes {
        assert_eq!(*addr, 0x3C);
        assert!(frame.len() <= I2C_MAX_WRITE);
        assert_eq!(frame[0], 0x40);
        joined.extend_from_slice(&frame[1..]);
    }
    let lens: Vec<usize> = d.i2c.writes.iter().map(|(_, f)| f.len()).collect();
    assert_eq!(lens, vec![32, 32, 32, 32, 5]);
    assert_eq!(joined, data);
}

#[test]
fn send_data_chunk_boundary() {
    // 31 payload bytes fit one frame; a 32nd starts a second frame.
    let mut d = Sh1107g::new(MockBus::new(), 0x3C);
    d.send_data(&[0x11; 31]).unwrap();
    assert_eq!(d.i2c.writes.len(), 1);
    assert_eq!(d.i2c.writes[0].1.len(), 32);
    let mut d = Sh1107g::new(MockBus::new(), 0x3C);
    d.send_data(&[0x11; 32]).unwrap();
    assert_eq!(d.i2c.writes.len(), 2);
    assert_eq!(d.i2c.writes[0].1.len(), 32);
    assert_eq!(d.i2c.writes[1].1, vec![0x40, 0x11]);
}

#[test]
fn send_data_empty_writes_nothing() {
    let mut d = Sh1107g::new(MockBus::new(), 0x3C);
    d.send_data(&[]).unwrap();
    assert!(d.i2c.writes.is_empty());
}

#[test]
fn send_data_aborts_on_bus_failure() {
    let mut d = Sh1107g::new(MockBus::failing_on(2), 0x3C);
    let data = [0x55; 128];
    let r = d.send_data(&data);
    assert!(matches!(r, Err(Sh1107gError::I2cError(0xEE))));
    assert_eq!(d.i2c.writes.len(), 2);
}

#[test]
fn init_sends_the_exact_sequence() {
    let mut d = Sh1107g::new(MockBus::new(), 0x3C);
    d.init().unwrap();
    let frames: Vec<Vec<u8>> = d.i2c.writes.iter().map(|(_, f)| f.clone()).collect();
    assert_eq!(frames, expected_init_frames());
    assert!(d.i2c.writes.iter().all(|(a, _)| *a == 0x3C));
}

#[test]
fn init_aborts_on_the_third_command() {
    let mut d = Sh1107g::new(MockBus::failing_on(3), 0x3C);
    let r = d.init();
    assert!(matches!(r, Err(Sh1107gError::I2cError(0xEE))));
    // The third command was attempted; the fourth onward never were.
    assert_eq!(d.i2c.writes.len(), 3);
    let frames: Vec<Vec<u8>> = d.i2c.writes.iter().map(|(_, f)| f.clone()).collect();
    assert_eq!(frames, expected_init_frames()[..3].to_vec());
}

#[test]
fn init_frame_list_matches_init() {
    assert_eq!(init_frame_list(), expected_init_frames());
}

#[test]
fn flush_emits_the_page_structure() {
    let mut d = Sh1107g::new(MockBus::new(), 0x3C);
    // A recognizable pattern across the whole framebuffer.
    let pattern: Vec<u8> = (0..128 * 16).map(|i| (i % 251) as u8).collect();
    for (i, &b) in pattern.iter().enumerate() {
        for bit in 0..8 {
            if b & (1 << bit) != 0 {
                let x = (i % 128) as i32;
                let y = ((i / 128) * 8 + bit) as i32;
                d.set_pixel(x, y, true);
            }
        }
    }
    assert_eq!(d.as_bytes(), pattern.as_slice());
    d.flush().unwrap();
    assert_eq!(d.i2c.writes.len(), 8 * PAGE_COUNT);
    for page in 0..PAGE_COUNT {
        let frames = &d.i2c.writes[page * 8..page * 8 + 8];
        assert_eq!(frames[0].1, vec![0x00, 0xB0 | page as u8]);
        assert_eq!(frames[1].1, vec![0x00, 0x00]);
        assert_eq!(frames[2].1, vec![0x00, 0x10]);
        let mut joined: Vec<u8> = Vec::new();
        for (_, frame) in &frames[3..] {
            assert!(frame.len() <= I2C_MAX_WRITE);
            assert_eq!(frame[0], 0x40);
            joined.extend_from_slice(&frame[1..]);
        }
        assert_eq!(joined, pattern[page * DISPLAY_WIDTH..(page + 1) * DISPLAY_WIDTH].to_vec());
    }
}

#[test]
fn flush_failure_aborts_and_keeps_the_framebuffer() {
    let mut d = Sh1107g::new(MockBus::failing_on(10), 0x3C);
    d.set_pixel(1, 1, true);
    let before = d.as_bytes().to_vec();
    let r = d.flush();
    assert!(matches!(r, Err(Sh1107gError::I2cError(0xEE))));
    assert_eq!(d.i2c.writes.len(), 10);
    assert_eq!(d.as_bytes(), before.as_slice());
}

#[test]
fn flush_frame_list_matches_flush() {
    let mut d = Sh1107g::new(MockBus::new(), 0x3C);
    d.set_pixel(17, 42, true);
    d.set_pixel(99, 3, true);
    let list = d.flush_frame_list();
    d.flush().unwrap();
    let frames: Vec<Vec<u8>> = d.i2c.writes.iter().map(|(_, f)| f.clone()).collect();
    assert_eq!(list, frames);
}

#[test]
fn builder_without_bus_reports_no_bus_connected() {
    let r = Sh1107gBuilder::<MockBus>::new().build();
    assert!(matches!(r, Err(BuilderError::NoI2cConnected)));
}

#[test]
fn builder_builds_and_initializes() {
    let r = Sh1107gBuilder::new().connect_i2c(MockBus::new()).build();
    let d = match r {
        Ok(d) => d,
        Err(e) => panic!("build failed: {:?}", e),
    };
    let frames: Vec<Vec<u8>> = d.i2c.writes.iter().map(|(_, f)| f.clone()).collect();
    assert_eq!(frames, expected_init_frames());
    assert!(d.i2c.writes.iter().all(|(a, _)| *a == 0x3C));
    assert!(d.as_bytes().iter().all(|&b| b == 0x00));
}

#[test]
fn builder_uses_the_configured_address() {
    let r = Sh1107gBuilder::new().connect_i2c(MockBus::new()).with_address(0x3D).build();
    let d = r.unwrap_or_else(|e| panic!("build failed: {:?}", e));
    assert!(d.i2c.writes.iter().all(|(a, _)| *a == 0x3D));
}

#[test]
fn builder_clear_on_init_still_builds() {
    let r = Sh1107gBuilder::new().connect_i2c(MockBus::new()).clear_on_init(true).build();
    let d = r.unwrap_or_else(|e| panic!("build failed: {:?}", e));
    assert!(d.as_bytes().iter().all(|&b| b == 0x00));
}

#[test]
fn raw_bus_errors_wrap_into_the_driver_error() {
    let e: Sh1107gError<u8> = Sh1107gError::from(0x17u8);
    assert!(matches!(e, Sh1107gError::I2cError(0x17)));
}

#[test]
fn builder_reports_init_failure() {
    let r = Sh1107gBuilder::new().connect_i2c(MockBus::failing_on(1)).build();
    assert!(matches!(r, Err(BuilderError::InitFailed)));
}
