use chip8::emulator::Chip8;
use chip8::state::{CycleOutcome, Fault, PROG_START};

fn get_emulator() -> Chip8 {
    Chip8::new()
}

#[test]
fn unknown_opcode_faults() {
    let mut chip8 = get_emulator();
    chip8.memory[PROG_START] = 0xF4;
    chip8.memory[PROG_START + 1] = 0xFF;
    assert_eq!(chip8.cycle(), Err(Fault::UnknownOpcode));
    assert_eq!(chip8.reg_pc as usize, PROG_START);
}

#[test]
fn fetch_past_end_faults() {
    let mut chip8 = get_emulator();
    chip8.reg_pc = 4095;
    assert_eq!(chip8.cycle(), Err(Fault::AddressOutOfRange));
    assert_eq!(chip8.reg_pc, 4095);
}

#[test]
fn bcd_past_end_faults() {
    let mut chip8 = get_emulator();
    chip8.memory[PROG_START] = 0xF4;
    chip8.memory[PROG_START + 1] = 0x33;
    chip8.reg_i = 4094;
    assert_eq!(chip8.cycle(), Err(Fault::AddressOutOfRange));
}

#[test]
fn save_vx_past_end_faults() {
    let mut chip8 = get_emulator();
    chip8.memory[PROG_START] = 0xF3;
    chip8.memory[PROG_START + 1] = 0x55;
    chip8.reg_i = 4094;
    assert_eq!(chip8.cycle(), Err(Fault::AddressOutOfRange));
    assert_eq!(chip8.reg_i, 4094);
    assert_eq!(chip8.memory[4094], 0);
}

#[test]
fn load_vx_past_end_faults() {
    let mut chip8 = get_emulator();
    chip8.memory[PROG_START] = 0xF3;
    chip8.memory[PROG_START + 1] = 0x65;
    chip8.reg_i = 4094;
    assert_eq!(chip8.cycle(), Err(Fault::AddressOutOfRange));
}

#[test]
fn draw_past_end_faults() {
    let mut chip8 = get_emulator();
    chip8.memory[PROG_START] = 0xD0;
    chip8.memory[PROG_START + 1] = 0x05;
    chip8.reg_i = 4093;
    assert_eq!(chip8.cycle(), Err(Fault::AddressOutOfRange));
}

#[test]
fn key_skip_with_bad_register_faults() {
    let mut chip8 = get_emulator();
    chip8.memory[PROG_START] = 0xE4;
    chip8.memory[PROG_START + 1] = 0x9E;
    chip8.reg_v[4] = 20;
    assert_eq!(chip8.cycle(), Err(Fault::InvalidKeyIndex));
}

#[test]
fn set_keyboard_key_rejects_bad_index() {
    let mut chip8 = get_emulator();
    assert_eq!(chip8.set_keyboard_key(16, true), Err(Fault::InvalidKeyIndex));
    assert_eq!(chip8.keyboard, [false; 16]);
}

#[test]
fn keyboard_interface_latches_and_clears() {
    let mut chip8 = get_emulator();
    chip8.set_keyboard_key(3, true).unwrap();
    chip8.set_keyboard_key(15, true).unwrap();
    assert_eq!(chip8.keyboard[3], true);
    assert_eq!(chip8.keyboard[15], true);
    assert_eq!(chip8.keyboard[4], false);
    chip8.set_keyboard_key(3, false).unwrap();
    assert_eq!(chip8.keyboard[3], false);
    chip8.clear_keyboard();
    assert_eq!(chip8.keyboard, [false; 16]);
}

#[test]
fn sound_gate_is_above_one() {
    let mut chip8 = get_emulator();
    chip8.reg_timer_sound = 0;
    assert!(!chip8.should_play_sound());
    chip8.reg_timer_sound = 1;
    assert!(!chip8.should_play_sound());
    chip8.reg_timer_sound = 2;
    assert!(chip8.should_play_sound());
}

#[test]
fn random_is_masked() {
    let mut chip8 = get_emulator();
    chip8.memory[PROG_START] = 0xC4;
    chip8.memory[PROG_START + 1] = 0x00;
    chip8.reg_v[4] = 0xAB;
    chip8.cycle().unwrap();
    assert_eq!(chip8.reg_v[4], 0);
    chip8.memory[PROG_START + 2] = 0xC4;
    chip8.memory[PROG_START + 3] = 0x0F;
    chip8.cycle().unwrap();
    assert!(chip8.reg_v[4] <= 0x0F);
}

#[test]
fn load_places_each_byte() {
    let mut chip8 = get_emulator();
    let data = vec![7, 13, 0, 255];
    chip8.load(data).unwrap();
    assert_eq!(chip8.memory[PROG_START], 7);
    assert_eq!(chip8.memory[PROG_START + 1], 13);
    assert_eq!(chip8.memory[PROG_START + 2], 0);
    assert_eq!(chip8.memory[PROG_START + 3], 255);
    assert_eq!(chip8.memory[PROG_START + 4], 0);
}

#[test]
fn awaiting_key_holds_across_cycles() {
    let mut chip8 = get_emulator();
    chip8.memory[PROG_START] = 0xF2;
    chip8.memory[PROG_START + 1] = 0x0A;
    assert_eq!(chip8.cycle(), Ok(CycleOutcome::AwaitingKey));
    assert_eq!(chip8.cycle(), Ok(CycleOutcome::AwaitingKey));
    assert_eq!(chip8.cycle(), Ok(CycleOutcome::AwaitingKey));
    assert_eq!(chip8.reg_pc as usize, PROG_START);
    chip8.set_keyboard_key(7, true).unwrap();
    assert_eq!(chip8.cycle(), Ok(CycleOutcome::Executed));
    assert_eq!(chip8.reg_pc as usize, PROG_START + 2);
    assert_eq!(chip8.reg_v[2], 7);
}

#[test]
fn wait_for_key_picks_lowest_pressed() {
    let mut chip8 = get_emulator();
    chip8.memory[PROG_START] = 0xF0;
    chip8.memory[PROG_START + 1] = 0x0A;
    chip8.keyboard[9] = true;
    chip8.keyboard[5] = true;
    chip8.keyboard[12] = true;
    chip8.cycle().unwrap();
    assert_eq!(chip8.reg_v[0], 5);
}

#[test]
fn font_glyphs_sit_at_the_bottom() {
    let chip8 = get_emulator();
    assert_eq!(
        &chip8.memory[0..5],
        &[0xF0, 0x90, 0x90, 0x90, 0xF0]
    );
    assert_eq!(
        &chip8.memory[75..80],
        &[0xF0, 0x80, 0xF0, 0x80, 0x80]
    );
    assert_eq!(chip8.memory[80], 0);
}

#[test]
fn draw_wraps_horizontally() {
    let mut chip8 = get_emulator();
    chip8.memory[PROG_START] = 0xD4;
    chip8.memory[PROG_START + 1] = 0x51;
    chip8.memory[0x300] = 0xFF;
    chip8.reg_i = 0x300;
    chip8.reg_v[4] = 60;
    chip8.reg_v[5] = 0;
    chip8.cycle().unwrap();
    assert_eq!(chip8.display[60], true);
    assert_eq!(chip8.display[63], true);
    assert_eq!(chip8.display[0], true);
    assert_eq!(chip8.display[3], true);
    assert_eq!(chip8.display[4], false);
}
