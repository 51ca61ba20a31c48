use soft2d::{blit_same_size, ivec2, Color, GridView, IVec2, Surface};

struct RowBuffer {
    cells: Vec<u32>,
}

impl Surface for RowBuffer {
    fn grid(&self) -> GridView {
        panic!("ghost state has no runtime value")
    }

    fn inv(&self) -> bool {
        panic!("ghost state has no runtime value")
    }

    fn get_pixel(&self, pos: IVec2) -> Color {
        Color::from_u32(self.cells[pos.x as usize])
    }

    fn set_pixel(&mut self, pos: IVec2, color: Color) {
        self.cells[pos.x as usize] = color.as_u32();
    }

    fn size(&self) -> IVec2 {
        ivec2(self.cells.len() as i32, 1)
    }
}

#[test]
fn blit_between_different_surface_types() {
    let mut row = RowBuffer { cells: vec![0, 0, 0] };
    row.set_pixel(ivec2(0, 0), Color::red());
    row.set_pixel(ivec2(1, 0), Color::green());
    row.set_pixel(ivec2(2, 0), Color::blue());
    let mut dst = soft2d::Image::new(3, 1, Color::black());
    blit_same_size(&mut dst, &row, ivec2(0, 0), ivec2(0, 0), ivec2(3, 1));
    assert_eq!(dst.get_pixel(ivec2(0, 0)), Color::red());
    assert_eq!(dst.get_pixel(ivec2(1, 0)), Color::green());
    assert_eq!(dst.get_pixel(ivec2(2, 0)), Color::blue());
}

#[test]
fn clear_through_the_trait() {
    let mut row = RowBuffer { cells: vec![1, 2, 3, 4] };
    row.clear(Color::white());
    for x in 0..4 {
        assert_eq!(row.get_pixel(ivec2(x, 0)), Color::white());
    }
}
