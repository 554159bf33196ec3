use vstd::prelude::*;

verus! {

/// Which movement keys are held down.
pub struct CameraController {
    pub is_forward_pressed: bool,
    pub is_backward_pressed: bool,
    pub is_left_pressed: bool,
    pub is_right_pressed: bool,
    pub is_up_pressed: bool,
    pub is_down_pressed: bool,
}

impl Default for CameraController {
    fn default() -> (controller: Self)
        ensures
            !controller.is_forward_pressed,
            !controller.is_backward_pressed,
            !controller.is_left_pressed,
            !controller.is_right_pressed,
            !controller.is_up_pressed,
            !controller.is_down_pressed,
    {
        CameraController {
            is_forward_pressed: false,
            is_backward_pressed: false,
            is_left_pressed: false,
            is_right_pressed: false,
            is_up_pressed: false,
            is_down_pressed: false,
        }
    }
}

impl CameraController {
    /// Records a press (`is_pressed`) or release of the key labelled `key`: W moves
    /// forward, S backward, A left, D right, E up and Q down; other keys change nothing.
    pub fn process_key(&mut self, key: char, is_pressed: bool)
        ensures
            final(self).is_forward_pressed == (if key == 'W' {
                is_pressed
            } else {
                old(self).is_forward_pressed
            }),
            final(self).is_backward_pressed == (if key == 'S' {
                is_pressed
            } else {
                old(self).is_backward_pressed
            }),
            final(self).is_left_pressed == (if key == 'A' {
                is_pressed
            } else {
                old(self).is_left_pressed
            }),
            final(self).is_right_pressed == (if key == 'D' {
                is_pressed
            } else {
                old(self).is_right_pressed
            }),
            final(self).is_up_pressed == (if key == 'E' {
                is_pressed
            } else {
                old(self).is_up_pressed
            }),
            final(self).is_down_pressed == (if key == 'Q' {
                is_pressed
            } else {
                old(self).is_down_pressed
            }),
    {
        match key {
            'W' => self.is_forward_pressed = is_pressed,
            'S' => self.is_backward_pressed = is_pressed,
            'A' => self.is_left_pressed = is_pressed,
            'D' => self.is_right_pressed = is_pressed,
            'E' => self.is_up_pressed = is_pressed,
            'Q' => self.is_down_pressed = is_pressed,
            _ => {},
        }
    }
}

} // verus!
