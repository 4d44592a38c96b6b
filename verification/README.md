# biplanevsaliens

The rules of a 3D game in which a bi-plane shoots aliens before they land,
as a library verified with Verus, and the game program around it.

- `src/` is the verified library: the keyboard controls, the screens and
  game-over rule, the gun's cooldown, bullets and alien ships (ageing,
  culling, spawning, hits), the player's lives and crash countdown, the
  camera's lagging direction queue, the landscape's beaches and tile
  wrapping, the text layout over the font texture, and the pixel work that
  turns rendered text into the slanted title of the start screen. Game
  objects are generic over their vector type, so the library holds no
  floating-point arithmetic.
- `app/` is the program: windowing, input and sound through SDL2, drawing
  through OpenGL, model and texture loading, noise-generated terrain and all
  floating-point movement. It hands plain values to the library and acts on
  what comes back.
- `tests/` runs the library on concrete cases.
