use process_memory::copy::ncopy;
use process_memory::group::{group_by, retain_read_write};
use process_memory::layout::plan_output;
use process_memory::region::parse_maps;

#[test]
fn descriptor_to_files_end_to_end() {
    let text = "1000-2000 rw-p 0 00:00 0 \n2000-3000 r--p 0 00:00 0 /lib/x\n3000-4000 rw-p 0 00:00 0 /lib/x";
    let mem: Vec<u8> = (0..0x4000usize).map(|i| (i % 253) as u8).collect();
    let pages = retain_read_write(parse_maps(text).unwrap());
    assert_eq!(pages.len(), 2);
    let groups = group_by(pages);
    assert_eq!(groups.len(), 2);
    let mut outputs: Vec<(String, Vec<u8>)> = Vec::new();
    for g in &groups {
        let plan = plan_output(g, "out");
        assert_eq!(plan.dir, "out");
        for (page, path) in g.pages.iter().zip(plan.files.iter()) {
            let mut data = Vec::new();
            ncopy(&mem[page.from as usize..], &mut data, (page.to - page.from) as usize);
            outputs.push((path.clone(), data));
        }
    }
    outputs.sort();
    assert_eq!(outputs.len(), 2);
    assert_eq!(outputs[0].0, "out/");
    assert_eq!(outputs[0].1.len(), 4096);
    assert_eq!(outputs[0].1, mem[0x1000..0x2000].to_vec());
    assert_eq!(outputs[1].0, "out/_lib_x");
    assert_eq!(outputs[1].1.len(), 4096);
    assert_eq!(outputs[1].1, mem[0x3000..0x4000].to_vec());
}
