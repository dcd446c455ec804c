use mikan_os::error::{cxx_result, Code, CxxCode};
use mikan_os::memory_manager::{BitmapMemoryManager, MemoryDescriptor, CONVENTIONAL};
use mikan_os::page_maps::{
    free_pml4, handle_page_fault, new_page_map, set_new_page_map_if_not_present, setup_page_map, setup_page_maps, setup_pml4, PageMaps,
};
use mikan_os::paging::{find_file_mapping, page_fault_action, LinearAddress4Level, PageFaultAction};
use mikan_os::task::{FileMapping, Task};

fn manager(pages: u64) -> BitmapMemoryManager {
    let mut m = BitmapMemoryManager::new();
    let map = [MemoryDescriptor { ty: CONVENTIONAL, phys_start: 0, page_count: pages }];
    m.init(&map, 0x10_0000, 0x1000);
    m
}

fn entry(maps: &PageMaps, table: u64, i: usize) -> u64 {
    maps.table(table).unwrap()[i].data
}

#[test]
fn new_page_map_takes_the_first_free_frame() {
    let mut m = manager(64);
    let mut maps = PageMaps::new();
    assert_eq!(new_page_map(&mut maps, &mut m), Ok(0x1000));
    assert_eq!(new_page_map(&mut maps, &mut m), Ok(0x2000));
    let t = maps.table(0x2000).unwrap();
    assert_eq!(t.len(), 512);
    assert!(t.iter().all(|e| e.data == 0));
    assert!(maps.table(0x3000).is_none());
}

#[test]
fn mapping_pages_builds_the_four_levels() {
    let mut m = manager(64);
    let mut maps = PageMaps::new();
    let pml4 = new_page_map(&mut maps, &mut m).unwrap();
    let addr = LinearAddress4Level { addr: 0xffff_8000_0000_0000 };
    assert_eq!(setup_page_maps(&mut maps, &mut m, pml4, addr, 3), Ok(()));
    // PML4 entry 256 -> PDP at 0x2000 -> PD at 0x3000 -> PT at 0x4000.
    assert_eq!(entry(&maps, pml4, 256), 0x2000 | 0b111);
    assert_eq!(entry(&maps, 0x2000, 0), 0x3000 | 0b111);
    assert_eq!(entry(&maps, 0x3000, 0), 0x4000 | 0b111);
    assert_eq!(entry(&maps, 0x4000, 0), 0x5000 | 0b111);
    assert_eq!(entry(&maps, 0x4000, 1), 0x6000 | 0b111);
    assert_eq!(entry(&maps, 0x4000, 2), 0x7000 | 0b111);
    assert_eq!(entry(&maps, 0x4000, 3), 0);
    assert_eq!(m.stat().allocated_frames, 7);
}

#[test]
fn mapping_again_reuses_present_entries() {
    let mut m = manager(64);
    let mut maps = PageMaps::new();
    let pml4 = new_page_map(&mut maps, &mut m).unwrap();
    let addr = LinearAddress4Level { addr: 0x40_0000 };
    setup_page_maps(&mut maps, &mut m, pml4, addr, 2).unwrap();
    let used = m.stat().allocated_frames;
    setup_page_maps(&mut maps, &mut m, pml4, LinearAddress4Level { addr: 0x40_1000 }, 2).unwrap();
    assert_eq!(m.stat().allocated_frames, used + 1);
}

#[test]
fn mapping_runs_on_into_the_next_page_table() {
    let mut m = manager(64);
    let mut maps = PageMaps::new();
    let pml4 = new_page_map(&mut maps, &mut m).unwrap();
    let addr = LinearAddress4Level { addr: 0x1f_e000 };
    let pd_index_left = setup_page_map(&mut maps, &mut m, pml4, 4, addr, 4);
    assert_eq!(pd_index_left, Ok(0));
    // page 510 and 511 of the first page table, 0 and 1 of the second.
    let pdp = entry(&maps, pml4, 0) & !0xfff;
    let pd = entry(&maps, pdp, 0) & !0xfff;
    assert_ne!(entry(&maps, pd, 0), 0);
    assert_ne!(entry(&maps, pd, 1), 0);
    let pt0 = entry(&maps, pd, 0) & !0xfff;
    let pt1 = entry(&maps, pd, 1) & !0xfff;
    assert_ne!(entry(&maps, pt0, 510), 0);
    assert_ne!(entry(&maps, pt0, 511), 0);
    assert_ne!(entry(&maps, pt1, 0), 0);
    assert_ne!(entry(&maps, pt1, 1), 0);
    assert_eq!(entry(&maps, pt1, 2), 0);
}

#[test]
fn a_page_table_maps_no_further_than_its_end() {
    let mut m = manager(64);
    let mut maps = PageMaps::new();
    let pt = new_page_map(&mut maps, &mut m).unwrap();
    let addr = LinearAddress4Level { addr: 0x1fe000 };
    assert_eq!(setup_page_map(&mut maps, &mut m, pt, 1, addr, 5), Ok(3));
    assert_eq!(entry(&maps, pt, 510) & 0b111, 0b111);
    assert_eq!(entry(&maps, pt, 511) & 0b111, 0b111);
    // The other entries are left as they were.
    for i in 0..510 {
        assert_eq!(entry(&maps, pt, i), 0);
    }
}

#[test]
fn mapping_without_free_frames_fails() {
    let mut m = manager(4);
    let mut maps = PageMaps::new();
    let pml4 = new_page_map(&mut maps, &mut m).unwrap();
    let addr = LinearAddress4Level { addr: 0x40_0000 };
    assert_eq!(setup_page_maps(&mut maps, &mut m, pml4, addr, 8), Err(Code::NoEnoughMemory));
    assert_eq!(new_page_map(&mut maps, &mut m), Err(Code::NoEnoughMemory));
}

fn task() -> Task {
    let mut t = Task::new(1, 0x10000);
    t.set_dpaging_begin(0x1000_0000);
    t.set_dpaging_end(0x1000_4000);
    t.set_app_stack_size(0x2000);
    t.add_file_map(FileMapping { fd: 3, vaddr_begin: 0x2000_0000, vaddr_end: 0x2000_3000 });
    t.add_file_map(FileMapping { fd: 4, vaddr_begin: 0x2000_2000, vaddr_end: 0x2000_9000 });
    t
}

#[test]
fn page_faults_and_what_they_ask_for() {
    let t = task();
    assert_eq!(page_fault_action(1, 0x1000_0000, &t), Err(Code::AlreadyAllocated));
    assert_eq!(page_fault_action(2, 0x1000_1234, &t), Ok(PageFaultAction::MapPage(0x1000_1234)));
    assert_eq!(page_fault_action(0, 0x1000_4000, &t), Err(Code::IndexOutOfRange));
    assert_eq!(
        page_fault_action(0, 0xffff_ffff_ffff_c010, &t),
        Ok(PageFaultAction::MapPage(0xffff_ffff_ffff_c010))
    );
    assert_eq!(page_fault_action(0, 0xffff_ffff_ffff_b000, &t), Err(Code::IndexOutOfRange));
    assert_eq!(
        page_fault_action(4, 0x2000_2abc, &t),
        Ok(PageFaultAction::CachePage { fd: 3, page: 0x2000_2000, file_offset: 0x2000 })
    );
    assert_eq!(
        page_fault_action(4, 0x2000_5001, &t),
        Ok(PageFaultAction::CachePage { fd: 4, page: 0x2000_5000, file_offset: 0x3000 })
    );
}

#[test]
fn file_mapping_search() {
    let t = task();
    assert_eq!(find_file_mapping(t.file_maps(), 0x2000_2000), Some(0));
    assert_eq!(find_file_mapping(t.file_maps(), 0x2000_3000), Some(1));
    assert_eq!(find_file_mapping(t.file_maps(), 0x2000_9000), None);
}

#[test]
fn driver_codes() {
    assert_eq!(cxx_result(CxxCode::Success), Ok(()));
    assert_eq!(cxx_result(CxxCode::Full), Err(Code::Full));
    assert_eq!(cxx_result(CxxCode::EndpointNotInCharge), Err(Code::EndpointNotInCharge));
    assert_eq!(CxxCode::InvalidFile.to_code(), Code::InvalidFile);
}

#[test]
fn a_new_top_table_shares_the_kernel_half() {
    let mut m = manager(64);
    let mut maps = PageMaps::new();
    let kernel = new_page_map(&mut maps, &mut m).unwrap();
    setup_page_maps(&mut maps, &mut m, kernel, LinearAddress4Level { addr: 0x40_0000 }, 1).unwrap();
    setup_page_maps(&mut maps, &mut m, kernel, LinearAddress4Level { addr: 0xffff_8000_0000_0000 }, 1).unwrap();
    let app = setup_pml4(&mut maps, &mut m, kernel).unwrap();
    assert_eq!(entry(&maps, app, 0), entry(&maps, kernel, 0));
    assert_ne!(entry(&maps, kernel, 256), 0);
    assert_eq!(entry(&maps, app, 256), 0);
    let used = m.stat().allocated_frames;
    free_pml4(&mut maps, &mut m, app);
    assert!(maps.table(app).is_none());
    assert_eq!(m.stat().allocated_frames, used - 1);
    assert_eq!(new_page_map(&mut maps, &mut m), Ok(app));
}

#[test]
fn an_entry_gets_a_fresh_table_once() {
    let mut m = manager(64);
    let mut maps = PageMaps::new();
    let t = new_page_map(&mut maps, &mut m).unwrap();
    assert_eq!(set_new_page_map_if_not_present(&mut maps, &mut m, t, 7), Ok(0x2000));
    assert_eq!(entry(&maps, t, 7), 0x2001);
    assert_eq!(set_new_page_map_if_not_present(&mut maps, &mut m, t, 7), Ok(0x2000));
    assert_eq!(m.stat().allocated_frames, 2);
}

#[test]
fn page_fault_maps_the_page() {
    let mut m = manager(64);
    let mut maps = PageMaps::new();
    let pml4 = new_page_map(&mut maps, &mut m).unwrap();
    let t = task();
    assert_eq!(
        handle_page_fault(&mut maps, &mut m, pml4, &t, 2, 0x1000_1234),
        Ok(PageFaultAction::MapPage(0x1000_1234))
    );
    let pdp = entry(&maps, pml4, 0) & !0xfff;
    let pd = entry(&maps, pdp, 0) & !0xfff;
    let pt = entry(&maps, pd, 128) & !0xfff;
    assert_ne!(entry(&maps, pt, 1), 0);
    assert_eq!(handle_page_fault(&mut maps, &mut m, pml4, &t, 1, 0x1000_1234), Err(Code::AlreadyAllocated));
    assert_eq!(handle_page_fault(&mut maps, &mut m, pml4, &t, 0, 0x3000_0000), Err(Code::IndexOutOfRange));
}
